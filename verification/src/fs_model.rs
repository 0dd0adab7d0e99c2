//! An in-memory model of one stream's destinations.
//!
//! The model mirrors what executing a handler's [`Action`]s does to the
//! world: a console sink accumulating bytes and the rotation set's files by
//! suffix index (index 0 is the active file). The shell that performs the
//! real filesystem work follows the same action semantics, so the
//! properties proved of the model — retention, content, ordering — are the
//! properties of the decisions themselves.

use vstd::prelude::*;

use crate::handler::Action;
use crate::handler::ActView;
use crate::handler::act_view;
use crate::handler::acts_view;
use crate::handler::clone_bytes;
use crate::rotator::slot_renamed;

verus! {

/// The mathematical state of one stream's destinations: the bytes the
/// console sink has received, and the rotation set's file contents by
/// suffix index (`None` = no such file).
pub struct FsView {
    pub console: Seq<u8>,
    pub slots: Seq<Option<Seq<u8>>>,
}

/// The effect of one action: a rename moves a file's content between
/// suffix indices (skipped if the source does not exist), an open creates
/// the active file empty if absent (append mode keeps an existing one), a
/// console write extends the console sink, and an append extends the open
/// active file.
pub open spec fn apply_act(fs: FsView, a: ActView) -> FsView {
    match a {
        ActView::Rename { from, to } => FsView {
            console: fs.console,
            slots: slot_renamed(fs.slots, from as int, to as int),
        },
        ActView::OpenActive => FsView {
            console: fs.console,
            slots: if 0 < fs.slots.len() && fs.slots[0] is None {
                fs.slots.update(0, Some(Seq::empty()))
            } else {
                fs.slots
            },
        },
        ActView::Console { bytes } => FsView { console: fs.console + bytes, slots: fs.slots },
        ActView::Append { bytes } => FsView {
            console: fs.console,
            slots: if 0 < fs.slots.len() && fs.slots[0] is Some {
                fs.slots.update(0, Some((fs.slots[0]->0) + bytes))
            } else {
                fs.slots
            },
        },
    }
}

/// A list of actions applied in order.
pub open spec fn apply_acts(fs: FsView, acts: Seq<ActView>) -> FsView
    decreases acts.len(),
{
    if acts.len() == 0 {
        fs
    } else {
        apply_acts(apply_act(fs, acts[0]), acts.drop_first())
    }
}

/// Executable mirror of [`FsView`]: what one stream's destinations hold
/// after a list of actions has been executed.
#[derive(Debug)]
pub struct FsModel {
    /// Bytes the console sink has received, in order.
    pub console: Vec<u8>,
    /// File contents by suffix index; `None` = no such file.
    pub slots: Vec<Option<Vec<u8>>>,
}

impl View for FsModel {
    type V = FsView;

    open spec fn view(&self) -> FsView {
        FsView {
            console: self.console@,
            slots: self.slots@.map_values(
                |o: Option<Vec<u8>>|
                    if o is Some {
                        Some((o->0)@)
                    } else {
                        None
                    },
            ),
        }
    }
}

impl FsModel {
    /// Builds an empty model: nothing on the console, `capacity` file
    /// slots, all free.
    pub fn new(capacity: usize) -> (r: FsModel)
        ensures
            r@.console == Seq::<u8>::empty(),
            r@.slots.len() == capacity,
            forall|i: int| 0 <= i < capacity ==> r@.slots[i] is None,
    {
        let mut slots: Vec<Option<Vec<u8>>> = Vec::new();
        let mut k: usize = 0;
        while k < capacity
            invariant
                k <= capacity,
                k == slots@.len(),
                forall|i: int| 0 <= i < k ==> slots@[i] is None,
            decreases capacity - k,
        {
            slots.push(None);
            k = k + 1;
        }
        let r = FsModel { console: Vec::new(), slots };
        proof {
            assert forall|i: int| 0 <= i < capacity implies r@.slots[i] is None by {
                assert(r.slots@[i] is None);
            }
        }
        r
    }

    /// Executes one action on the model.
    pub fn apply(&mut self, a: &Action)
        ensures
            final(self)@ == apply_act(old(self)@, act_view(*a)),
    {
        match a {
            Action::Rename { from, to } => {
                let f = *from as usize;
                let t = *to as usize;
                if f < self.slots.len() && t < self.slots.len() && self.slots[f].is_some() {
                    let content = match &self.slots[f] {
                        Some(v) => clone_bytes(v),
                        None => Vec::new(),
                    };
                    self.slots[t] = Some(content);
                    self.slots[f] = None;
                    proof {
                        assert(self@.slots =~= slot_renamed(
                            old(self)@.slots,
                            *from as int,
                            *to as int,
                        ));
                    }
                } else {
                    proof {
                        assert(self@.slots =~= slot_renamed(
                            old(self)@.slots,
                            *from as int,
                            *to as int,
                        ));
                    }
                }
                proof {
                    assert(self@ == apply_act(old(self)@, act_view(*a)));
                }
            },
            Action::OpenActive => {
                if self.slots.len() > 0 && self.slots[0].is_none() {
                    self.slots[0] = Some(Vec::new());
                }
                proof {
                    assert(self@.slots =~= apply_act(old(self)@, act_view(*a)).slots);
                    assert(self@ == apply_act(old(self)@, act_view(*a)));
                }
            },
            Action::Console { bytes } => {
                let mut k: usize = 0;
                while k < bytes.len()
                    invariant
                        k <= bytes@.len(),
                        self.console@ == old(self).console@ + bytes@.take(k as int),
                        self.slots == old(self).slots,
                    decreases bytes@.len() - k,
                {
                    self.console.push(bytes[k]);
                    proof {
                        assert(self.console@ =~= old(self).console@ + bytes@.take(k as int + 1));
                    }
                    k = k + 1;
                }
                proof {
                    assert(self.console@ =~= old(self).console@ + bytes@);
                    assert(self@ == apply_act(old(self)@, act_view(*a)));
                }
            },
            Action::Append { bytes } => {
                if self.slots.len() > 0 && self.slots[0].is_some() {
                    let mut cur = match &self.slots[0] {
                        Some(v) => clone_bytes(v),
                        None => Vec::new(),
                    };
                    let mut k: usize = 0;
                    while k < bytes.len()
                        invariant
                            k <= bytes@.len(),
                            cur@ == old(self)@.slots[0]->0 + bytes@.take(k as int),
                            self == old(self),
                            0 < old(self)@.slots.len() && old(self)@.slots[0] is Some,
                        decreases bytes@.len() - k,
                    {
                        cur.push(bytes[k]);
                        proof {
                            assert(cur@ =~= old(self)@.slots[0]->0 + bytes@.take(k as int + 1));
                        }
                        k = k + 1;
                    }
                    proof {
                        assert(cur@ =~= old(self)@.slots[0]->0 + bytes@);
                    }
                    self.slots[0] = Some(cur);
                    proof {
                        assert(self@.slots =~= apply_act(old(self)@, act_view(*a)).slots);
                        assert(self@ == apply_act(old(self)@, act_view(*a)));
                    }
                } else {
                    proof {
                        assert(self@.slots =~= apply_act(old(self)@, act_view(*a)).slots);
                        assert(self@ == apply_act(old(self)@, act_view(*a)));
                    }
                }
            },
        }
    }

    /// Executes a list of actions in order.
    pub fn apply_all(&mut self, actions: &Vec<Action>)
        ensures
            final(self)@ == apply_acts(old(self)@, acts_view(actions@)),
    {
        let ghost views = acts_view(actions@);
        let mut k: usize = 0;
        proof {
            assert(views.skip(0) =~= views);
        }
        while k < actions.len()
            invariant
                k <= actions@.len(),
                views == acts_view(actions@),
                apply_acts(self@, views.skip(k as int)) == apply_acts(old(self)@, views),
            decreases actions@.len() - k,
        {
            let ghost rest = views.skip(k as int);
            proof {
                assert(rest[0] == views[k as int]);
                assert(views[k as int] == act_view(actions@[k as int]));
                assert(rest.drop_first() =~= views.skip(k as int + 1));
            }
            self.apply(&actions[k]);
            k = k + 1;
        }
        proof {
            assert(views.skip(actions@.len() as int) =~= Seq::<ActView>::empty());
        }
    }
}

} // verus!

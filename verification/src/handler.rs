//! The per-stream log handler: a verified decision core.
//!
//! One `LogHandler` owns one captured stream's destination. Each write
//! turns into an ordered list of [`Action`]s — the renames of a rotation,
//! the opening of a fresh active file, the optional console echo, and the
//! append itself — together with the bookkeeping update. An unverified
//! shell executes the actions against the real filesystem and console; the
//! contracts here pin down exactly which actions each write decides on.

use vstd::prelude::*;

use crate::config::LogMode;
use crate::config::RotationConfig;
use crate::policy::ActiveFileState;
use crate::policy::should_rotate;
use crate::policy::spec_should_rotate;
use crate::rotator::rename_pairs;
use crate::rotator::rotation_renames;

verus! {

/// One effect that a write decided on, in execution order.
///
/// Suffix indices name files of the rotation set: index 0 is the active
/// file `path`, index `i >= 1` is `path.i`.
#[derive(Debug)]
pub enum Action {
    /// Rename the file at suffix index `from` to suffix index `to`,
    /// overwriting the destination; skip silently if the source does not
    /// exist.
    Rename { from: u32, to: u32 },
    /// Open the active file for appending, creating it empty if absent.
    OpenActive,
    /// Write the bytes to the console sink.
    Console { bytes: Vec<u8> },
    /// Append the bytes to the active file and flush.
    Append { bytes: Vec<u8> },
}

/// The mathematical image of an [`Action`].
pub enum ActView {
    Rename { from: nat, to: nat },
    OpenActive,
    Console { bytes: Seq<u8> },
    Append { bytes: Seq<u8> },
}

/// The mathematical image of one action.
pub open spec fn act_view(a: Action) -> ActView {
    match a {
        Action::Rename { from, to } => ActView::Rename { from: from as nat, to: to as nat },
        Action::OpenActive => ActView::OpenActive,
        Action::Console { bytes } => ActView::Console { bytes: bytes@ },
        Action::Append { bytes } => ActView::Append { bytes: bytes@ },
    }
}

/// The mathematical image of an action list.
pub open spec fn acts_view(s: Seq<Action>) -> Seq<ActView> {
    s.map_values(|a: Action| act_view(a))
}

/// The rename chain of a rotation with `n` retained files, as actions.
pub open spec fn rename_act_views(n: nat) -> Seq<ActView> {
    rename_pairs(n).map_values(
        |p: (u32, u32)| ActView::Rename { from: p.0 as nat, to: p.1 as nat },
    )
}

/// The byte contents of a list of line payloads, each terminated by a
/// newline, in order.
pub open spec fn join_lines(lines: Seq<Seq<u8>>) -> Seq<u8>
    decreases lines.len(),
{
    if lines.len() == 0 {
        Seq::empty()
    } else {
        lines[0].push(10u8) + join_lines(lines.drop_first())
    }
}

/// Bytes a handler must still be able to count for these line payloads:
/// each line's length plus its newline.
pub open spec fn total_line_bytes(lines: Seq<Seq<u8>>) -> nat
    decreases lines.len(),
{
    if lines.len() == 0 {
        0
    } else {
        lines[0].len() + 1 + total_line_bytes(lines.drop_first())
    }
}

/// The views of a list of line buffers.
pub open spec fn lines_view(lines: Seq<Vec<u8>>) -> Seq<Seq<u8>> {
    lines.map_values(|l: Vec<u8>| l@)
}

/// Owns one destination: the optional rotation configuration and the
/// active file's bookkeeping. With no configuration every write is a pure
/// console passthrough and no file is ever touched; with one, writes go to
/// the rotated file set and, in `Tee` mode, to the console as well.
#[derive(Debug)]
pub struct LogHandler {
    /// The stream's rotation configuration; absent means passthrough.
    pub config: Option<RotationConfig>,
    /// Bookkeeping for the open active file; absent until the first write.
    pub state: Option<ActiveFileState>,
}

impl LogHandler {
    /// A handler is well-formed when its configuration, if any, is.
    pub open spec fn wf(self) -> bool {
        self.config matches Some(c) ==> c.wf()
    }

    /// Whether the next write must first run the rotator and open a fresh
    /// active file: always on the first write, and afterwards whenever the
    /// rotation policy fires.
    pub open spec fn spec_reopens(self, now: u64) -> bool {
        self.config matches Some(c) && (self.state is None || spec_should_rotate(
            c,
            self.state->0,
            now,
        ))
    }

    /// The byte counter at the moment the append happens: zero right after
    /// a (re)open, the running counter otherwise.
    pub open spec fn spec_bytes_at_append(self, now: u64) -> nat {
        if self.spec_reopens(now) || self.state is None {
            0
        } else {
            self.state->0.bytes_written as nat
        }
    }

    /// The actions one write of `content` decides on, in order: the rename
    /// chain and a fresh open when a (re)open is due, the console echo in
    /// `Tee` mode (before the file write, so console output survives an
    /// unwritable log file), and the append itself. Without a
    /// configuration, the write is a console passthrough only.
    pub open spec fn spec_write_plan(self, content: Seq<u8>, now: u64) -> Seq<ActView> {
        match self.config {
            None => seq![ActView::Console { bytes: content }],
            Some(c) => {
                let pre = if self.spec_reopens(now) {
                    rename_act_views(c.max_files as nat).push(ActView::OpenActive)
                } else {
                    Seq::empty()
                };
                let tee = if c.mode is Tee {
                    seq![ActView::Console { bytes: content }]
                } else {
                    Seq::empty()
                };
                pre + tee + seq![ActView::Append { bytes: content }]
            },
        }
    }

    /// The handler's bookkeeping after one write of `content`: the counter
    /// grows by the content's length, from zero if the write (re)opened the
    /// active file, and the creation time is reset exactly then.
    pub open spec fn spec_write_next(self, content: Seq<u8>, now: u64) -> LogHandler {
        match self.config {
            None => self,
            Some(c) => LogHandler {
                config: self.config,
                state: Some(
                    ActiveFileState {
                        bytes_written: (self.spec_bytes_at_append(now) + content.len()) as u64,
                        created_at: if self.spec_reopens(now) {
                            now
                        } else {
                            self.state->0.created_at
                        },
                    },
                ),
            },
        }
    }

    /// The actions of processing these line payloads in order, each
    /// written as the line followed by a newline.
    pub open spec fn spec_run_plan(self, lines: Seq<Seq<u8>>, now: u64) -> Seq<ActView>
        decreases lines.len(),
    {
        if lines.len() == 0 {
            Seq::empty()
        } else {
            self.spec_write_plan(lines[0].push(10u8), now) + self.spec_write_next(
                lines[0].push(10u8),
                now,
            ).spec_run_plan(lines.drop_first(), now)
        }
    }

    /// The handler's bookkeeping after processing these line payloads.
    pub open spec fn spec_run_next(self, lines: Seq<Seq<u8>>, now: u64) -> LogHandler
        decreases lines.len(),
    {
        if lines.len() == 0 {
            self
        } else {
            self.spec_write_next(lines[0].push(10u8), now).spec_run_next(
                lines.drop_first(),
                now,
            )
        }
    }

    /// Builds a handler that has not yet opened any file.
    pub fn new(config: Option<RotationConfig>) -> (r: LogHandler)
        ensures
            r == (LogHandler { config, state: None }),
    {
        LogHandler { config, state: None }
    }

    /// Decides the actions for one write of `content` and updates the
    /// bookkeeping, assuming the actions will be executed in order.
    pub fn write(&mut self, content: &Vec<u8>, now: u64) -> (actions: Vec<Action>)
        requires
            old(self).wf(),
            old(self).spec_bytes_at_append(now) + content@.len() <= u64::MAX,
        ensures
            acts_view(actions@) == old(self).spec_write_plan(content@, now),
            *final(self) == old(self).spec_write_next(content@, now),
            final(self).wf(),
    {
        let reopen: bool;
        let tee: bool;
        let max_files: u32;
        match (&self.config, &self.state) {
            (None, _) => {
                let mut actions: Vec<Action> = Vec::new();
                actions.push(Action::Console { bytes: clone_bytes(content) });
                proof {
                    assert(acts_view(actions@) =~= old(self).spec_write_plan(content@, now));
                }
                return actions;
            },
            (Some(c), None) => {
                reopen = true;
                tee = matches!(c.mode, LogMode::Tee);
                max_files = c.max_files;
            },
            (Some(c), Some(st)) => {
                reopen = should_rotate(c, st, now);
                tee = matches!(c.mode, LogMode::Tee);
                max_files = c.max_files;
            },
        }
        let len64: u64 = content.len() as u64;
        let bytes0: u64;
        let created: u64;
        if reopen {
            bytes0 = 0;
            created = now;
        } else {
            match &self.state {
                Some(st) => {
                    bytes0 = st.bytes_written;
                    created = st.created_at;
                },
                None => {
                    proof {
                        assert(false);
                    }
                    bytes0 = 0;
                    created = now;
                },
            }
        }
        let mut actions: Vec<Action> = Vec::new();
        let ghost n = max_files as nat;
        if reopen {
            let renames = rotation_renames(max_files);
            let mut k: usize = 0;
            while k < renames.len()
                invariant
                    k <= renames.len(),
                    renames@ == rename_pairs(n),
                    acts_view(actions@) == rename_act_views(n).take(k as int),
                decreases renames.len() - k,
            {
                let pair = renames[k];
                let ghost a0 = actions@;
                actions.push(Action::Rename { from: pair.0, to: pair.1 });
                proof {
                    let target = rename_act_views(n).take(k as int + 1);
                    assert(rename_act_views(n).len() == rename_pairs(n).len());
                    assert(acts_view(a0).len() == a0.len());
                    assert(a0.len() == k as int);
                    assert(actions@[k as int] == Action::Rename { from: pair.0, to: pair.1 });
                    assert(act_view(actions@[k as int]) == ActView::Rename {
                        from: pair.0 as nat,
                        to: pair.1 as nat,
                    });
                    assert(rename_pairs(n)[k as int] == (pair.0, pair.1));
                    assert(rename_act_views(n)[k as int] == ActView::Rename {
                        from: pair.0 as nat,
                        to: pair.1 as nat,
                    });
                    assert forall|i: int| 0 <= i < actions@.len() implies acts_view(actions@)[i]
                        == target[i] by {
                        if i < k as int {
                            assert(acts_view(a0)[i] == rename_act_views(n).take(k as int)[i]);
                            assert(acts_view(actions@)[i] == act_view(actions@[i]));
                        } else {
                            assert(act_view(actions@[i]) == rename_act_views(n)[k as int]);
                        }
                    }
                    assert(acts_view(actions@) =~= target);
                }
                k = k + 1;
            }
            proof {
                assert(rename_act_views(n).take(renames@.len() as int) =~= rename_act_views(n));
            }
            actions.push(Action::OpenActive);
            proof {
                assert(acts_view(actions@) =~= rename_act_views(n).push(ActView::OpenActive));
            }
        }
        if tee {
            actions.push(Action::Console { bytes: clone_bytes(content) });
        }
        actions.push(Action::Append { bytes: clone_bytes(content) });
        self.state = Some(ActiveFileState { bytes_written: bytes0 + len64, created_at: created });
        proof {
            assert(acts_view(actions@) =~= old(self).spec_write_plan(content@, now));
        }
        actions
    }

    /// Writes one line: the content followed by a newline, as a single
    /// write.
    pub fn writeln(&mut self, content: &Vec<u8>, now: u64) -> (actions: Vec<Action>)
        requires
            old(self).wf(),
            old(self).spec_bytes_at_append(now) + content@.len() + 1 <= u64::MAX,
        ensures
            acts_view(actions@) == old(self).spec_write_plan(content@.push(10u8), now),
            *final(self) == old(self).spec_write_next(content@.push(10u8), now),
            final(self).wf(),
    {
        let mut line = clone_bytes(content);
        line.push(10);
        self.write(&line, now)
    }

    /// Processes a batch of line payloads in order, writing each as the
    /// line followed by a newline, and returns all decided actions in
    /// order.
    pub fn process(&mut self, lines: &Vec<Vec<u8>>, now: u64) -> (actions: Vec<Action>)
        requires
            old(self).wf(),
            old(self).spec_state_bytes() + total_line_bytes(lines_view(lines@)) <= u64::MAX,
        ensures
            acts_view(actions@) == old(self).spec_run_plan(lines_view(lines@), now),
            *final(self) == old(self).spec_run_next(lines_view(lines@), now),
            final(self).wf(),
    {
        let ghost all = lines_view(lines@);
        let mut actions: Vec<Action> = Vec::new();
        proof {
            assert(all.skip(0) =~= all);
            assert(acts_view(actions@) =~= Seq::<ActView>::empty());
            assert(Seq::<ActView>::empty() + old(self).spec_run_plan(all, now) =~= old(
                self,
            ).spec_run_plan(all, now));
        }
        let mut k: usize = 0;
        while k < lines.len()
            invariant
                k <= lines.len(),
                self.wf(),
                all == lines_view(lines@),
                self.spec_state_bytes() + total_line_bytes(all.skip(k as int)) <= u64::MAX,
                acts_view(actions@) + self.spec_run_plan(all.skip(k as int), now) == old(
                    self,
                ).spec_run_plan(all, now),
                self.spec_run_next(all.skip(k as int), now) == old(self).spec_run_next(all, now),
            decreases lines.len() - k,
        {
            let ghost rest = all.skip(k as int);
            let ghost before = *self;
            let ghost acts0 = acts_view(actions@);
            proof {
                assert(rest[0] == all[k as int]);
                assert(rest.drop_first() =~= all.skip(k as int + 1));
                lemma_bytes_at_append_le(*self, now);
            }
            let mut step = self.writeln(&lines[k], now);
            actions.append(&mut step);
            proof {
                assert(acts_view(actions@) =~= acts0 + before.spec_write_plan(
                    all[k as int].push(10u8),
                    now,
                ));
                assert((acts0 + before.spec_write_plan(all[k as int].push(10u8), now))
                    + self.spec_run_plan(all.skip(k as int + 1), now) =~= acts0
                    + before.spec_run_plan(rest, now));
                lemma_state_bytes_after_write(before, all[k as int].push(10u8), now);
            }
            k = k + 1;
        }
        proof {
            assert(all.skip(lines@.len() as int) =~= Seq::<Seq<u8>>::empty());
            assert(acts_view(actions@) + Seq::<ActView>::empty() =~= acts_view(actions@));
        }
        actions
    }

    /// The running byte counter, zero while no file is open.
    pub open spec fn spec_state_bytes(self) -> nat {
        if self.state is Some {
            self.state->0.bytes_written as nat
        } else {
            0
        }
    }
}

/// The counter at append time never exceeds the running counter.
proof fn lemma_bytes_at_append_le(h: LogHandler, now: u64)
    ensures
        h.spec_bytes_at_append(now) <= h.spec_state_bytes(),
{
}

/// After a write, the running counter is the counter at append time plus
/// the content's length — so it grew by at most the content's length.
proof fn lemma_state_bytes_after_write(h: LogHandler, content: Seq<u8>, now: u64)
    requires
        h.spec_bytes_at_append(now) + content.len() <= u64::MAX,
    ensures
        h.spec_write_next(content, now).spec_state_bytes() <= h.spec_state_bytes()
            + content.len(),
        h.spec_write_next(content, now).config == h.config,
        h.spec_write_next(content, now).wf() == h.wf(),
{
}

/// Copies a byte buffer, so the same content can be handed to several
/// sinks.
pub(crate) fn clone_bytes(v: &Vec<u8>) -> (r: Vec<u8>)
    ensures
        r@ == v@,
{
    let mut r: Vec<u8> = Vec::new();
    let mut k: usize = 0;
    while k < v.len()
        invariant
            k <= v.len(),
            r@ == v@.take(k as int),
        decreases v.len() - k,
    {
        r.push(v[k]);
        proof {
            assert(r@ =~= v@.take(k as int + 1));
        }
        k = k + 1;
    }
    proof {
        assert(r@ =~= v@);
    }
    r
}

} // verus!

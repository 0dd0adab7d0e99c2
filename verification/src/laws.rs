//! The library's cross-cutting laws, stated and proved.
//!
//! Everything here is about whole runs of a handler: what the console sink
//! receives, what the log files receive, and what the model filesystem
//! holds once every decided action has been executed.

use vstd::prelude::*;

use crate::fs_model::FsView;
use crate::fs_model::apply_act;
use crate::fs_model::apply_acts;
use crate::handler::ActView;
use crate::handler::LogHandler;
use crate::handler::join_lines;
use crate::handler::rename_act_views;
use crate::rotator::count_files;
use crate::rotator::rename_pairs;
use crate::rotator::slot_renamed;
use crate::rotator::slots_renamed;

verus! {

/// Bytes a list of actions hands to the console sink, in order.
pub open spec fn console_of(acts: Seq<ActView>) -> Seq<u8>
    decreases acts.len(),
{
    if acts.len() == 0 {
        Seq::empty()
    } else {
        (match acts[0] {
            ActView::Console { bytes } => bytes,
            _ => Seq::empty(),
        }) + console_of(acts.drop_first())
    }
}

/// Bytes a list of actions appends to the active file, in order.
pub open spec fn appended_of(acts: Seq<ActView>) -> Seq<u8>
    decreases acts.len(),
{
    if acts.len() == 0 {
        Seq::empty()
    } else {
        (match acts[0] {
            ActView::Append { bytes } => bytes,
            _ => Seq::empty(),
        }) + appended_of(acts.drop_first())
    }
}

proof fn lemma_console_of_concat(a: Seq<ActView>, b: Seq<ActView>)
    ensures
        console_of(a + b) == console_of(a) + console_of(b),
    decreases a.len(),
{
    if a.len() == 0 {
        assert(a + b =~= b);
        assert(console_of(a) + console_of(b) =~= console_of(b));
    } else {
        assert((a + b).drop_first() =~= a.drop_first() + b);
        assert((a + b)[0] == a[0]);
        lemma_console_of_concat(a.drop_first(), b);
        assert(console_of(a + b) =~= console_of(a) + console_of(b));
    }
}

proof fn lemma_appended_of_concat(a: Seq<ActView>, b: Seq<ActView>)
    ensures
        appended_of(a + b) == appended_of(a) + appended_of(b),
    decreases a.len(),
{
    if a.len() == 0 {
        assert(a + b =~= b);
        assert(appended_of(a) + appended_of(b) =~= appended_of(b));
    } else {
        assert((a + b).drop_first() =~= a.drop_first() + b);
        assert((a + b)[0] == a[0]);
        lemma_appended_of_concat(a.drop_first(), b);
        assert(appended_of(a + b) =~= appended_of(a) + appended_of(b));
    }
}

proof fn lemma_silent_actions(acts: Seq<ActView>)
    requires
        forall|i: int| 0 <= i < acts.len() ==> !((#[trigger] acts[i]) is Console) && !(acts[i]
            is Append),
    ensures
        console_of(acts) == Seq::<u8>::empty(),
        appended_of(acts) == Seq::<u8>::empty(),
    decreases acts.len(),
{
    if acts.len() > 0 {
        lemma_silent_actions(acts.drop_first());
        assert(console_of(acts) =~= Seq::<u8>::empty());
        assert(appended_of(acts) =~= Seq::<u8>::empty());
    }
}

proof fn lemma_one_action(fs: FsView, a: ActView)
    ensures
        apply_acts(fs, seq![a]) == apply_act(fs, a),
        console_of(seq![a]) == (match a {
            ActView::Console { bytes } => bytes,
            _ => Seq::<u8>::empty(),
        }),
        appended_of(seq![a]) == (match a {
            ActView::Append { bytes } => bytes,
            _ => Seq::<u8>::empty(),
        }),
{
    reveal_with_fuel(console_of, 2);
    reveal_with_fuel(appended_of, 2);
    reveal_with_fuel(apply_acts, 2);
    assert(seq![a].drop_first() =~= Seq::<ActView>::empty());
    assert(console_of(seq![a]) =~= (match a {
        ActView::Console { bytes } => bytes,
        _ => Seq::<u8>::empty(),
    }));
    assert(appended_of(seq![a]) =~= (match a {
        ActView::Append { bytes } => bytes,
        _ => Seq::<u8>::empty(),
    }));
}

/// What one write hands to each destination: the console sees the content
/// exactly in `Tee` mode — and always when no file is configured — and the
/// active file sees the content exactly when one is.
pub proof fn lemma_write_plan_content(h: LogHandler, content: Seq<u8>, now: u64)
    ensures
        console_of(h.spec_write_plan(content, now)) == (match h.config {
            None => content,
            Some(c) => if c.mode is Tee {
                content
            } else {
                Seq::<u8>::empty()
            },
        }),
        appended_of(h.spec_write_plan(content, now)) == (match h.config {
            None => Seq::<u8>::empty(),
            Some(_) => content,
        }),
{
    match h.config {
        None => {
            lemma_one_action(FsView { console: Seq::empty(), slots: Seq::empty() },
                ActView::Console { bytes: content });
        },
        Some(c) => {
            let pre: Seq<ActView> = if h.spec_reopens(now) {
                rename_act_views(c.max_files as nat).push(ActView::OpenActive)
            } else {
                Seq::empty()
            };
            let tee: Seq<ActView> = if c.mode is Tee {
                seq![ActView::Console { bytes: content }]
            } else {
                Seq::empty()
            };
            let app: Seq<ActView> = seq![ActView::Append { bytes: content }];
            assert(h.spec_write_plan(content, now) == (pre + tee) + app);
            if h.spec_reopens(now) {
                let rn = rename_act_views(c.max_files as nat);
                assert forall|i: int| 0 <= i < pre.len() implies !((#[trigger] pre[i])
                    is Console) && !(pre[i] is Append) by {
                    if i < rn.len() {
                        assert(pre[i] == rn[i]);
                        assert(rn[i] == ActView::Rename {
                            from: rename_pairs(c.max_files as nat)[i].0 as nat,
                            to: rename_pairs(c.max_files as nat)[i].1 as nat,
                        });
                    } else {
                        assert(pre[i] == ActView::OpenActive);
                    }
                }
            }
            lemma_silent_actions(pre);
            lemma_one_action(FsView { console: Seq::empty(), slots: Seq::empty() },
                ActView::Append { bytes: content });
            if c.mode is Tee {
                lemma_one_action(FsView { console: Seq::empty(), slots: Seq::empty() },
                    ActView::Console { bytes: content });
            }
            lemma_console_of_concat(pre, tee);
            lemma_console_of_concat(pre + tee, app);
            lemma_appended_of_concat(pre, tee);
            lemma_appended_of_concat(pre + tee, app);
            assert(console_of(h.spec_write_plan(content, now)) =~= (if c.mode is Tee {
                content
            } else {
                Seq::<u8>::empty()
            }));
            assert(appended_of(h.spec_write_plan(content, now)) =~= content);
        },
    }
}

/// In `Redirect` mode the console sink receives nothing, however many
/// lines are processed and whether or not rotations fire along the way.
pub proof fn lemma_redirect_console_silent(h: LogHandler, lines: Seq<Seq<u8>>, now: u64)
    requires
        h.config matches Some(c) && c.mode is Redirect,
    ensures
        console_of(h.spec_run_plan(lines, now)) == Seq::<u8>::empty(),
    decreases lines.len(),
{
    if lines.len() == 0 {
    } else {
        let line = lines[0].push(10u8);
        let h1 = h.spec_write_next(line, now);
        lemma_write_plan_content(h, line, now);
        lemma_redirect_console_silent(h1, lines.drop_first(), now);
        lemma_console_of_concat(h.spec_write_plan(line, now),
            h1.spec_run_plan(lines.drop_first(), now));
        assert(console_of(h.spec_run_plan(lines, now)) =~= Seq::<u8>::empty());
    }
}

/// In `Tee` mode the console sink receives exactly the processed lines,
/// each newline-terminated, in order — in addition to whatever the file
/// set receives.
pub proof fn lemma_tee_console_lines(h: LogHandler, lines: Seq<Seq<u8>>, now: u64)
    requires
        h.config matches Some(c) && c.mode is Tee,
    ensures
        console_of(h.spec_run_plan(lines, now)) == join_lines(lines),
    decreases lines.len(),
{
    if lines.len() == 0 {
    } else {
        let line = lines[0].push(10u8);
        let h1 = h.spec_write_next(line, now);
        lemma_write_plan_content(h, line, now);
        lemma_tee_console_lines(h1, lines.drop_first(), now);
        lemma_console_of_concat(h.spec_write_plan(line, now),
            h1.spec_run_plan(lines.drop_first(), now));
        assert(console_of(h.spec_run_plan(lines, now)) =~= join_lines(lines));
    }
}

proof fn lemma_apply_acts_concat(fs: FsView, a: Seq<ActView>, b: Seq<ActView>)
    ensures
        apply_acts(fs, a + b) == apply_acts(apply_acts(fs, a), b),
    decreases a.len(),
{
    if a.len() == 0 {
        assert(a + b =~= b);
    } else {
        assert((a + b).drop_first() =~= a.drop_first() + b);
        assert((a + b)[0] == a[0]);
        lemma_apply_acts_concat(apply_act(fs, a[0]), a.drop_first(), b);
    }
}

/// Executing any action list extends the console sink by exactly the
/// console actions' bytes, in order: file work never leaks to the console
/// and console bytes are never lost or reordered.
pub proof fn lemma_apply_console(fs: FsView, acts: Seq<ActView>)
    ensures
        apply_acts(fs, acts).console == fs.console + console_of(acts),
    decreases acts.len(),
{
    if acts.len() == 0 {
        assert(fs.console + console_of(acts) =~= fs.console);
    } else {
        let fs1 = apply_act(fs, acts[0]);
        lemma_apply_console(fs1, acts.drop_first());
        assert(apply_acts(fs, acts).console =~= fs.console + console_of(acts));
    }
}

proof fn lemma_apply_renames(fs: FsView, pairs: Seq<(u32, u32)>, avs: Seq<ActView>)
    requires
        avs.len() == pairs.len(),
        forall|i: int| 0 <= i < pairs.len() ==> (#[trigger] avs[i]) == (ActView::Rename {
            from: pairs[i].0 as nat,
            to: pairs[i].1 as nat,
        }),
    ensures
        apply_acts(fs, avs).slots == slots_renamed(fs.slots, pairs),
        apply_acts(fs, avs).console == fs.console,
    decreases pairs.len(),
{
    if pairs.len() > 0 {
        let fs1 = apply_act(fs, avs[0]);
        assert(avs[0] == ActView::Rename { from: pairs[0].0 as nat, to: pairs[0].1 as nat });
        assert(fs1.slots == slot_renamed(fs.slots, pairs[0].0 as int, pairs[0].1 as int));
        assert forall|i: int| 0 <= i < pairs.drop_first().len() implies (#[trigger] avs.drop_first()[i])
            == (ActView::Rename {
            from: pairs.drop_first()[i].0 as nat,
            to: pairs.drop_first()[i].1 as nat,
        }) by {
            assert(avs.drop_first()[i] == avs[i + 1]);
            assert(pairs.drop_first()[i] == pairs[i + 1]);
        }
        lemma_apply_renames(fs1, pairs.drop_first(), avs.drop_first());
    }
}

proof fn lemma_chain_frees_active(s: Seq<Option<Seq<u8>>>, n: nat)
    requires
        2 <= s.len(),
    ensures
        slots_renamed(s, rename_pairs(n)).len() == s.len(),
        slots_renamed(s, rename_pairs(n))[0] is None,
    decreases n,
{
    if n <= 2 {
        let pairs = rename_pairs(n);
        assert(pairs == seq![(0u32, 1u32)]);
        assert(pairs.drop_first() =~= Seq::<(u32, u32)>::empty());
        reveal_with_fuel(slots_renamed, 2);
        assert(slots_renamed(s, pairs) == slot_renamed(s, 0, 1));
    } else {
        let pairs = rename_pairs(n);
        let s1 = slot_renamed(s, pairs[0].0 as int, pairs[0].1 as int);
        assert(pairs.drop_first() =~= rename_pairs((n - 1) as nat));
        assert(slots_renamed(s, pairs) == slots_renamed(s1, rename_pairs((n - 1) as nat)));
        assert(s1.len() == s.len());
        lemma_chain_frees_active(s1, (n - 1) as nat);
    }
}

/// With both thresholds unbounded, a fresh handler rotates exactly once —
/// before its first line — and every line lands in the one active file:
/// once the run's actions have been executed, the active file holds
/// exactly the lines, each newline-terminated, in order.
pub proof fn lemma_unbounded_run_active_file(
    h: LogHandler,
    lines: Seq<Seq<u8>>,
    fs: FsView,
    now: u64,
)
    requires
        h.config matches Some(c) && c.max_age == 0 && c.max_size == 0,
        h.state is None,
        2 <= fs.slots.len(),
        1 <= lines.len(),
    ensures
        apply_acts(fs, h.spec_run_plan(lines, now)).slots.len() == fs.slots.len(),
        apply_acts(fs, h.spec_run_plan(lines, now)).slots[0] == Some(join_lines(lines)),
{
    let c = h.config->0;
    let line = lines[0].push(10u8);
    assert(h.spec_reopens(now));
    let rn = rename_act_views(c.max_files as nat);
    let pairs = rename_pairs(c.max_files as nat);
    let pre = rn.push(ActView::OpenActive);
    let tee: Seq<ActView> = if c.mode is Tee {
        seq![ActView::Console { bytes: line }]
    } else {
        Seq::empty()
    };
    let app: Seq<ActView> = seq![ActView::Append { bytes: line }];
    let plan0 = h.spec_write_plan(line, now);
    assert(plan0 == (pre + tee) + app);
    assert(pre =~= rn + seq![ActView::OpenActive]);
    assert(rn.len() == pairs.len());
    assert forall|i: int| 0 <= i < pairs.len() implies (#[trigger] rn[i]) == (ActView::Rename {
        from: pairs[i].0 as nat,
        to: pairs[i].1 as nat,
    }) by {}
    lemma_apply_renames(fs, pairs, rn);
    let fsr = apply_acts(fs, rn);
    lemma_chain_frees_active(fs.slots, c.max_files as nat);
    assert(fsr.slots[0] is None && fsr.slots.len() == fs.slots.len());
    lemma_apply_acts_concat(fs, rn, seq![ActView::OpenActive]);
    lemma_one_action(fsr, ActView::OpenActive);
    let fso = apply_act(fsr, ActView::OpenActive);
    assert(apply_acts(fs, pre) == fso);
    assert(fso.slots == fsr.slots.update(0, Some(Seq::<u8>::empty())));
    lemma_apply_acts_concat(fs, pre, tee);
    let fst = apply_acts(fso, tee);
    if c.mode is Tee {
        lemma_one_action(fso, ActView::Console { bytes: line });
    }
    assert(fst.slots == fso.slots);
    lemma_apply_acts_concat(fs, pre + tee, app);
    lemma_one_action(fst, ActView::Append { bytes: line });
    let fs1 = apply_act(fst, ActView::Append { bytes: line });
    assert(apply_acts(fs, plan0) == fs1);
    assert(Seq::<u8>::empty() + line =~= line);
    assert(fs1.slots[0] == Some(line));
    assert(fs1.slots.len() == fs.slots.len());
    let h1 = h.spec_write_next(line, now);
    let rest = lines.drop_first();
    lemma_apply_acts_concat(fs, plan0, h1.spec_run_plan(rest, now));
    assert(apply_acts(fs, h.spec_run_plan(lines, now)) == apply_acts(fs1, h1.spec_run_plan(
        rest,
        now,
    )));
    lemma_unbounded_tail(h1, rest, fs1, now);
    assert(line + join_lines(rest) =~= join_lines(lines));
    assert(apply_acts(fs1, h1.spec_run_plan(rest, now)).slots == fs1.slots.update(
        0,
        Some(fs1.slots[0]->0 + join_lines(rest)),
    ));
    assert(fs1.slots[0]->0 + join_lines(rest) =~= join_lines(lines));
}

/// However many lines are processed and however many rotations fire on
/// the way, a handler keeping `max_files` files never lets the rotation
/// set grow past that: every file sits at a suffix index below
/// `max_files`, and at most `max_files` files exist.
pub proof fn lemma_run_retention(h: LogHandler, lines: Seq<Seq<u8>>, fs: FsView, now: u64)
    requires
        h.config matches Some(c) && 2 <= c.max_files,
        h.config->0.max_files <= fs.slots.len(),
        forall|i: int| h.config->0.max_files <= i < fs.slots.len() ==> fs.slots[i] is None,
    ensures
        apply_acts(fs, h.spec_run_plan(lines, now)).slots.len() == fs.slots.len(),
        forall|i: int| h.config->0.max_files <= i < fs.slots.len() ==> apply_acts(
            fs,
            h.spec_run_plan(lines, now),
        ).slots[i] is None,
        count_files(apply_acts(fs, h.spec_run_plan(lines, now)).slots) <= h.config->0.max_files,
    decreases lines.len(),
{
    let n = h.config->0.max_files as int;
    lemma_step_retention(h, lines, fs, now);
    let out = apply_acts(fs, h.spec_run_plan(lines, now));
    assert forall|i: int| 0 <= i < out.slots.len() && out.slots[i] is Some implies 0 <= i
        < n by {}
    crate::rotator::lemma_count_files_bound(out.slots, 0, n);
}

/// Inductive core of [`lemma_run_retention`]: slots at or beyond
/// `max_files` stay free through a whole run.
proof fn lemma_step_retention(h: LogHandler, lines: Seq<Seq<u8>>, fs: FsView, now: u64)
    requires
        h.config matches Some(c) && 2 <= c.max_files,
        h.config->0.max_files <= fs.slots.len(),
        forall|i: int| h.config->0.max_files <= i < fs.slots.len() ==> fs.slots[i] is None,
    ensures
        apply_acts(fs, h.spec_run_plan(lines, now)).slots.len() == fs.slots.len(),
        forall|i: int| h.config->0.max_files <= i < fs.slots.len() ==> apply_acts(
            fs,
            h.spec_run_plan(lines, now),
        ).slots[i] is None,
    decreases lines.len(),
{
    let c = h.config->0;
    let n = c.max_files as nat;
    if lines.len() != 0 {
        let line = lines[0].push(10u8);
        let plan0 = h.spec_write_plan(line, now);
        let tee: Seq<ActView> = if c.mode is Tee {
            seq![ActView::Console { bytes: line }]
        } else {
            Seq::empty()
        };
        let app: Seq<ActView> = seq![ActView::Append { bytes: line }];
        let fst: FsView;
        if h.spec_reopens(now) {
            let rn = rename_act_views(n);
            let pairs = rename_pairs(n);
            let pre = rn.push(ActView::OpenActive);
            assert(plan0 == (pre + tee) + app);
            assert(pre =~= rn + seq![ActView::OpenActive]);
            assert(rn.len() == pairs.len());
            assert forall|i: int| 0 <= i < pairs.len() implies (#[trigger] rn[i])
                == (ActView::Rename { from: pairs[i].0 as nat, to: pairs[i].1 as nat }) by {}
            lemma_apply_renames(fs, pairs, rn);
            let fsr = apply_acts(fs, rn);
            crate::rotator::lemma_rotated_slots_shape(fs.slots, n);
            assert(fsr.slots.len() == fs.slots.len());
            assert forall|i: int| n <= i < fs.slots.len() implies fsr.slots[i] is None by {
                assert(fsr.slots[i] == fs.slots[i]);
            }
            lemma_apply_acts_concat(fs, rn, seq![ActView::OpenActive]);
            lemma_one_action(fsr, ActView::OpenActive);
            let fso = apply_act(fsr, ActView::OpenActive);
            assert(apply_acts(fs, pre) == fso);
            lemma_apply_acts_concat(fs, pre, tee);
            if c.mode is Tee {
                lemma_one_action(fso, ActView::Console { bytes: line });
            }
            fst = apply_acts(fso, tee);
            assert(fst.slots == fso.slots);
        } else {
            assert(plan0 =~= tee + app);
            if c.mode is Tee {
                lemma_one_action(fs, ActView::Console { bytes: line });
            }
            fst = apply_acts(fs, tee);
            assert(fst.slots == fs.slots);
            lemma_apply_acts_concat(fs, tee, app);
        }
        lemma_one_action(fst, ActView::Append { bytes: line });
        let fs1 = apply_act(fst, ActView::Append { bytes: line });
        if h.spec_reopens(now) {
            let rn = rename_act_views(n);
            let pre = rn.push(ActView::OpenActive);
            lemma_apply_acts_concat(fs, pre + tee, app);
        }
        assert(apply_acts(fs, plan0) == fs1);
        assert(fs1.slots.len() == fs.slots.len());
        assert forall|i: int| n <= i < fs.slots.len() implies fs1.slots[i] is None by {}
        let h1 = h.spec_write_next(line, now);
        let rest = lines.drop_first();
        lemma_apply_acts_concat(fs, plan0, h1.spec_run_plan(rest, now));
        lemma_step_retention(h1, rest, fs1, now);
    }
}

proof fn lemma_unbounded_tail(h: LogHandler, lines: Seq<Seq<u8>>, fs: FsView, now: u64)
    requires
        h.config matches Some(c) && c.max_age == 0 && c.max_size == 0,
        h.state is Some,
        1 <= fs.slots.len(),
        fs.slots[0] is Some,
    ensures
        apply_acts(fs, h.spec_run_plan(lines, now)).slots == fs.slots.update(
            0,
            Some(fs.slots[0]->0 + join_lines(lines)),
        ),
    decreases lines.len(),
{
    let c = h.config->0;
    if lines.len() == 0 {
        assert(fs.slots[0]->0 + join_lines(lines) =~= fs.slots[0]->0);
        assert(fs.slots.update(0, Some(fs.slots[0]->0)) =~= fs.slots);
    } else {
        let line = lines[0].push(10u8);
        assert(!h.spec_reopens(now));
        let plan0 = h.spec_write_plan(line, now);
        let tee: Seq<ActView> = if c.mode is Tee {
            seq![ActView::Console { bytes: line }]
        } else {
            Seq::empty()
        };
        let app: Seq<ActView> = seq![ActView::Append { bytes: line }];
        assert(plan0 =~= tee + app);
        lemma_apply_acts_concat(fs, tee, app);
        let fst = apply_acts(fs, tee);
        if c.mode is Tee {
            lemma_one_action(fs, ActView::Console { bytes: line });
        }
        assert(fst.slots == fs.slots);
        lemma_one_action(fst, ActView::Append { bytes: line });
        let fs1 = apply_act(fst, ActView::Append { bytes: line });
        assert(apply_acts(fs, plan0) == fs1);
        assert(fs1.slots[0] == Some(fs.slots[0]->0 + line));
        let h1 = h.spec_write_next(line, now);
        let rest = lines.drop_first();
        lemma_apply_acts_concat(fs, plan0, h1.spec_run_plan(rest, now));
        lemma_unbounded_tail(h1, rest, fs1, now);
        assert(fs1.slots[0]->0 + join_lines(rest) =~= fs.slots[0]->0 + join_lines(lines));
        assert(fs1.slots.update(0, Some(fs1.slots[0]->0 + join_lines(rest))) =~= fs.slots.update(
            0,
            Some(fs.slots[0]->0 + join_lines(lines)),
        ));
    }
}

/// A configured handler appends exactly the processed lines, each
/// newline-terminated, in order: nothing is dropped, reordered or
/// rewritten on the way to the file set, whatever rotations fire.
pub proof fn lemma_file_receives_lines(h: LogHandler, lines: Seq<Seq<u8>>, now: u64)
    requires
        h.config is Some,
    ensures
        appended_of(h.spec_run_plan(lines, now)) == join_lines(lines),
    decreases lines.len(),
{
    if lines.len() == 0 {
    } else {
        let line = lines[0].push(10u8);
        let h1 = h.spec_write_next(line, now);
        lemma_write_plan_content(h, line, now);
        lemma_file_receives_lines(h1, lines.drop_first(), now);
        lemma_appended_of_concat(h.spec_write_plan(line, now),
            h1.spec_run_plan(lines.drop_first(), now));
        assert(appended_of(h.spec_run_plan(lines, now)) =~= join_lines(lines));
    }
}

} // verus!

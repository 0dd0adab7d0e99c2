//! The rename chain that ages log files out.
//!
//! For an active file `path` kept with `max_files` total files, rotation
//! renames `path.(i-1)` to `path.i` for `i` from `max_files - 1` down to 2
//! and finally renames `path` to `path.1`, freeing the active name. The
//! chain is computed here as an ordered list of index pairs; executing a
//! pair means "if the file at the first index exists, rename it to the
//! second index's name". The effect of the chain on a directory is modelled
//! on a sequence of optional file contents indexed by suffix (index 0 is
//! the active file), and the retention properties are proved of that model.

use vstd::prelude::*;

verus! {

/// The rename chain for `n` retained files, oldest rename first:
/// `(n-2, n-1), ..., (1, 2), (0, 1)`. With `n <= 2` only the active file
/// is renamed.
pub open spec fn rename_pairs(n: nat) -> Seq<(u32, u32)>
    decreases n,
{
    if n <= 2 {
        seq![(0u32, 1u32)]
    } else {
        seq![(((n - 2) as u32), ((n - 1) as u32))] + rename_pairs((n - 1) as nat)
    }
}

/// Computes the rename chain that rotation must execute, in order.
pub fn rotation_renames(max_files: u32) -> (r: Vec<(u32, u32)>)
    requires
        max_files >= 1,
    ensures
        r@ == rename_pairs(max_files as nat),
{
    let mut r: Vec<(u32, u32)> = Vec::new();
    let mut i: u32 = max_files;
    while i > 2
        invariant
            1 <= i <= max_files,
            r@ + rename_pairs(i as nat) == rename_pairs(max_files as nat),
        decreases i,
    {
        let ghost r0 = r@;
        r.push((i - 2, i - 1));
        proof {
            assert(r@ + rename_pairs((i - 1) as nat) =~= r0 + rename_pairs(i as nat));
        }
        i = i - 1;
    }
    let ghost r0 = r@;
    r.push((0, 1));
    proof {
        assert(rename_pairs(i as nat) =~= seq![(0u32, 1u32)]);
        assert(r@ =~= r0 + rename_pairs(i as nat));
    }
    r
}

/// One rename applied to the model directory: if a file exists at `from`,
/// its content moves to `to` (overwriting whatever was there) and `from`
/// becomes free; otherwise nothing changes.
pub open spec fn slot_renamed(s: Seq<Option<Seq<u8>>>, from: int, to: int) -> Seq<
    Option<Seq<u8>>,
> {
    if 0 <= from < s.len() && 0 <= to < s.len() && s[from] is Some {
        s.update(to, s[from]).update(from, None)
    } else {
        s
    }
}

/// A chain of renames applied in order.
pub open spec fn slots_renamed(s: Seq<Option<Seq<u8>>>, pairs: Seq<(u32, u32)>) -> Seq<
    Option<Seq<u8>>,
>
    decreases pairs.len(),
{
    if pairs.len() == 0 {
        s
    } else {
        slots_renamed(slot_renamed(s, pairs[0].0 as int, pairs[0].1 as int), pairs.drop_first())
    }
}

/// The model directory after one full rotation with `n` retained files.
pub open spec fn rotated_slots(s: Seq<Option<Seq<u8>>>, n: nat) -> Seq<Option<Seq<u8>>> {
    slots_renamed(s, rename_pairs(n))
}

/// Exact effect of one rotation on the model directory: the active slot is
/// freed, every numbered file moves up by one index, the file at the
/// highest retained index — the oldest — is overwritten by its younger
/// sibling (and thereby discarded) whenever that sibling exists, and slots
/// beyond the retained range are untouched.
pub proof fn lemma_rotated_slots_shape(s: Seq<Option<Seq<u8>>>, n: nat)
    requires
        2 <= n <= s.len(),
        n <= u32::MAX,
    ensures
        rotated_slots(s, n).len() == s.len(),
        rotated_slots(s, n)[0] is None,
        forall|i: int| 1 <= i <= n - 2 ==> (#[trigger] rotated_slots(s, n)[i]) == s[i - 1],
        rotated_slots(s, n)[n - 1] == if s[n - 2] is Some {
            s[n - 2]
        } else {
            s[n - 1]
        },
        forall|i: int| n <= i < s.len() ==> (#[trigger] rotated_slots(s, n)[i]) == s[i],
    decreases n,
{
    if n == 2 {
        let pairs = rename_pairs(2);
        assert(pairs == seq![(0u32, 1u32)]);
        assert(pairs[0].0 as int == 0 && pairs[0].1 as int == 1);
        assert(pairs.drop_first() =~= Seq::<(u32, u32)>::empty());
        assert(rotated_slots(s, 2) == slots_renamed(slot_renamed(s, 0, 1), pairs.drop_first()));
        assert(rotated_slots(s, 2) == slot_renamed(s, 0, 1));
    } else {
        let s1 = slot_renamed(s, n - 2, n - 1);
        let pairs = rename_pairs(n);
        assert(pairs == seq![(((n - 2) as u32), ((n - 1) as u32))] + rename_pairs(
            (n - 1) as nat,
        ));
        assert(pairs[0].0 as int == n - 2 && pairs[0].1 as int == n - 1);
        assert(pairs.drop_first() =~= rename_pairs((n - 1) as nat));
        assert(rotated_slots(s, n) == slots_renamed(s1, rename_pairs((n - 1) as nat)));
        lemma_rotated_slots_shape(s1, (n - 1) as nat);
        let r = rotated_slots(s, n);
        assert(s1.len() == s.len());
        assert forall|i: int| 1 <= i <= n - 2 implies (#[trigger] rotated_slots(s, n)[i]) == s[i - 1] by {
            if i <= n - 3 {
                assert(r[i] == s1[i - 1]);
                assert(s1[i - 1] == s[i - 1]);
            } else {
                assert(r[i] == if s1[n - 3] is Some {
                    s1[n - 3]
                } else {
                    s1[n - 2]
                });
                assert(s1[n - 3] == s[n - 3]);
                if s[n - 3] is None {
                    assert(s1[n - 2] is None);
                }
            }
        }
        assert(r[n - 1] == s1[n - 1]);
        assert forall|i: int| n <= i < s.len() implies (#[trigger] rotated_slots(s, n)[i]) == s[i] by {
            assert(r[i] == s1[i]);
        }
    }
}

/// The number of files present in the model directory.
pub open spec fn count_files(s: Seq<Option<Seq<u8>>>) -> nat
    decreases s.len(),
{
    if s.len() == 0 {
        0
    } else {
        count_files(s.drop_last()) + (if s.last() is Some {
            1nat
        } else {
            0nat
        })
    }
}

/// A directory whose files all sit at indices in `lo..hi` holds at most
/// `hi - lo` files.
pub proof fn lemma_count_files_bound(s: Seq<Option<Seq<u8>>>, lo: int, hi: int)
    requires
        0 <= lo <= hi,
        forall|i: int| 0 <= i < s.len() && s[i] is Some ==> lo <= i < hi,
    ensures
        count_files(s) <= hi - lo,
    decreases s.len(),
{
    if s.len() > 0 {
        if s.last() is Some {
            lemma_count_files_bound(s.drop_last(), lo, s.len() - 1);
        } else {
            lemma_count_files_bound(s.drop_last(), lo, hi);
        }
    }
}

/// Retention invariant, preserved by every rotation: if no file sits at an
/// index at or beyond `n`, then after rotating with `n` retained files the
/// same holds, the active slot is free, and at most `n - 1` files remain —
/// so reopening the active file keeps the total at or below `n`.
pub proof fn lemma_rotation_retention(s: Seq<Option<Seq<u8>>>, n: nat)
    requires
        2 <= n <= s.len(),
        n <= u32::MAX,
        forall|i: int| n <= i < s.len() ==> s[i] is None,
    ensures
        rotated_slots(s, n).len() == s.len(),
        rotated_slots(s, n)[0] is None,
        forall|i: int| n <= i < s.len() ==> (#[trigger] rotated_slots(s, n)[i]) is None,
        count_files(rotated_slots(s, n)) <= n - 1,
{
    lemma_rotated_slots_shape(s, n);
    let r = rotated_slots(s, n);
    assert forall|i: int| 0 <= i < r.len() && r[i] is Some implies 1 <= i < n by {
        if i == 0 {
            assert(r[0] is None);
        } else if n <= i {
            assert(r[i] == s[i]);
        }
    }
    lemma_count_files_bound(r, 1, n as int);
}

/// Rotating an empty directory changes nothing: with no file at `path` or
/// any of its numbered siblings, the whole chain is a no-op.
pub proof fn lemma_rotate_empty_noop(s: Seq<Option<Seq<u8>>>, n: nat)
    requires
        forall|i: int| 0 <= i < s.len() ==> s[i] is None,
    ensures
        rotated_slots(s, n) == s,
{
    lemma_renames_empty_noop(s, rename_pairs(n));
}

proof fn lemma_renames_empty_noop(s: Seq<Option<Seq<u8>>>, pairs: Seq<(u32, u32)>)
    requires
        forall|i: int| 0 <= i < s.len() ==> s[i] is None,
    ensures
        slots_renamed(s, pairs) == s,
    decreases pairs.len(),
{
    if pairs.len() > 0 {
        assert(slot_renamed(s, pairs[0].0 as int, pairs[0].1 as int) == s);
        lemma_renames_empty_noop(s, pairs.drop_first());
    }
}

/// Decimal digits of `n`, most significant first.
pub open spec fn dec_digits(n: nat) -> Seq<u8>
    decreases n,
{
    if n < 10 {
        seq![(48 + n) as u8]
    } else {
        dec_digits(n / 10).push((48 + n % 10) as u8)
    }
}

/// The on-disk name of the file at suffix index `idx`: `path` itself for
/// the active file, `path.idx` for its rotated siblings.
pub open spec fn spec_rotated_name(path: Seq<u8>, idx: nat) -> Seq<u8> {
    if idx == 0 {
        path
    } else {
        path.push(46u8) + dec_digits(idx)
    }
}

fn push_decimal(out: &mut Vec<u8>, n: u32)
    ensures
        final(out)@ == old(out)@ + dec_digits(n as nat),
    decreases n,
{
    if n < 10 {
        out.push((48 + n) as u8);
        proof {
            assert(out@ =~= old(out)@ + dec_digits(n as nat));
        }
    } else {
        push_decimal(out, n / 10);
        out.push((48 + n % 10) as u8);
        proof {
            assert(out@ =~= old(out)@ + dec_digits(n as nat));
        }
    }
}

/// Builds the file name for suffix index `idx` of the rotation set rooted
/// at `path`.
pub fn rotated_name(path: &Vec<u8>, idx: u32) -> (r: Vec<u8>)
    ensures
        r@ == spec_rotated_name(path@, idx as nat),
{
    let mut r: Vec<u8> = Vec::new();
    let mut k: usize = 0;
    while k < path.len()
        invariant
            k <= path.len(),
            r@ == path@.take(k as int),
        decreases path.len() - k,
    {
        r.push(path[k]);
        proof {
            assert(r@ =~= path@.take(k as int + 1));
        }
        k = k + 1;
    }
    proof {
        assert(r@ =~= path@);
    }
    if idx > 0 {
        r.push(46);
        push_decimal(&mut r, idx);
    }
    r
}

} // verus!

//! Rotation policy: decide, from the active file's bookkeeping and the
//! current time, whether the file must be rotated before the next write.

use vstd::prelude::*;

use crate::config::RotationConfig;

verus! {

/// Bookkeeping for the currently-open active file: when it was created and
/// how many bytes have been appended to it since.
#[derive(Clone, Copy, Debug, PartialEq, Eq, Structural)]
pub struct ActiveFileState {
    /// Bytes appended to the active file since it was opened.
    pub bytes_written: u64,
    /// Timestamp (seconds) at which the active file was created.
    pub created_at: u64,
}

/// Rotation fires when the active file's age reaches `max_age` (if bounded)
/// or its size reaches `max_size` (if bounded); the two rules are
/// independent and either suffices.
pub open spec fn spec_should_rotate(cfg: RotationConfig, st: ActiveFileState, now: u64) -> bool {
    ||| cfg.max_age != 0 && now - st.created_at >= cfg.max_age
    ||| cfg.max_size != 0 && st.bytes_written >= cfg.max_size
}

/// Evaluates the rotation policy for one pending write.
pub fn should_rotate(cfg: &RotationConfig, st: &ActiveFileState, now: u64) -> (r: bool)
    ensures
        r == spec_should_rotate(*cfg, *st, now),
{
    if cfg.max_age != 0 && now >= st.created_at && now - st.created_at >= cfg.max_age {
        true
    } else {
        cfg.max_size != 0 && st.bytes_written >= cfg.max_size
    }
}

/// With both thresholds unbounded (`max_age == 0` and `max_size == 0`),
/// rotation never fires, whatever time has elapsed and however many bytes
/// were written.
pub proof fn lemma_unbounded_never_rotates(cfg: RotationConfig, st: ActiveFileState, now: u64)
    requires
        cfg.max_age == 0,
        cfg.max_size == 0,
    ensures
        !spec_should_rotate(cfg, st, now),
{
}

} // verus!

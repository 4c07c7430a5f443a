use vstd::prelude::*;

verus! {

/// Length of the cooldown, in seconds, between keyshare requests for one
/// record: thirty days.
pub const COOLDOWN_SECONDS: u64 = 60 * 60 * 24 * 30;

/// A record whose data was last submitted at `last_submission` is due for a
/// new keyshare request at `now` only strictly after the cooldown: the exact
/// boundary instant is still "not due".
pub open spec fn due(last_submission: u64, now: u64) -> bool {
    now > last_submission + COOLDOWN_SECONDS
}

/// The time gate: pure policy check deciding whether a new keyshare request
/// is allowed given the record's last submission time.
pub fn is_due(last_submission: u64, now: u64) -> (r: bool)
    ensures
        r == due(last_submission, now),
{
    if now <= COOLDOWN_SECONDS {
        false
    } else {
        now - COOLDOWN_SECONDS > last_submission
    }
}

} // verus!

use vstd::prelude::*;

verus! {

/// Liveness of a device as seen by the detector.
#[derive(Clone, Copy, Debug, PartialEq, Eq, Structural)]
pub enum DeviceState {
    /// No beat has been seen yet.
    New,
    /// The last beat is within the expected interval.
    Alive,
    /// The time since the last beat exceeds the expected interval.
    Overdue,
}

/// Length of the gap from `from` to `to`, in milliseconds.
pub open spec fn gap_spec(from: i64, to: i64) -> int {
    to as int - from as int
}

/// A gap is overdue when it strictly exceeds the expected interval.
pub open spec fn overdue_spec(last: i64, interval: u64, now: i64) -> bool {
    gap_spec(last, now) > interval as int
}

pub open spec fn state_spec(last: Option<i64>, interval: u64, now: i64) -> DeviceState {
    match last {
        None => DeviceState::New,
        Some(l) => if overdue_spec(l, interval, now) {
            DeviceState::Overdue
        } else {
            DeviceState::Alive
        },
    }
}

/// Gap from `from` to a later instant `to`; the result always fits in a `u64`.
pub fn gap(from: i64, to: i64) -> (r: u64)
    requires
        from <= to,
    ensures
        r as int == gap_spec(from, to),
{
    (to as i128 - from as i128) as u64
}

/// Whether a device that last beat at `last` is overdue at `now`
/// (exactly `interval` elapsed is not overdue).
pub fn is_overdue(last: i64, interval: u64, now: i64) -> (r: bool)
    ensures
        r == overdue_spec(last, interval, now),
{
    now > last && gap(last, now) > interval
}

/// The state of a device whose last beat is `last` (none for a device that
/// never beat), queried at `now`.
pub fn current_state(last: Option<i64>, interval: u64, now: i64) -> (r: DeviceState)
    ensures
        r == state_spec(last, interval, now),
{
    match last {
        None => DeviceState::New,
        Some(l) => if is_overdue(l, interval, now) {
            DeviceState::Overdue
        } else {
            DeviceState::Alive
        },
    }
}

/// The longest gap once `gap` has been observed, given the longest so far.
pub fn longest_gap_candidate(longest: u64, gap: u64) -> (r: u64)
    ensures
        r as int == if gap > longest { gap as int } else { longest as int },
        r >= longest,
        r >= gap,
{
    if gap > longest { gap } else { longest }
}

/// Elapsed time exactly equal to the expected interval is not overdue; one
/// millisecond more is.
pub proof fn lemma_overdue_boundary(last: i64, interval: u64)
    requires
        last + interval + 1 <= i64::MAX,
    ensures
        !overdue_spec(last, interval, (last + interval) as i64),
        overdue_spec(last, interval, (last + interval + 1) as i64),
{
}

} // verus!

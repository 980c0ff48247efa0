use vstd::prelude::*;

use crate::model::{clamp_i64, saturate_i64, Stats};
use crate::registry::{uptime_spec, DeviceRecord, DeviceRegistry};

verus! {

/// Sum of the beat counts of `s`.
pub open spec fn sum_beats(s: Seq<DeviceRecord>) -> int
    decreases s.len(),
{
    if s.len() == 0 {
        0
    } else {
        sum_beats(s.drop_last()) + s.last().total_beats
    }
}

/// Sum of the uptimes of `s` at `now`.
pub open spec fn sum_uptime(s: Seq<DeviceRecord>, now: i64) -> int
    decreases s.len(),
{
    if s.len() == 0 {
        0
    } else {
        sum_uptime(s.drop_last(), now) + uptime_spec(s.last(), now)
    }
}

/// Largest longest-gap over `s`, zero for no devices.
pub open spec fn max_gap(s: Seq<DeviceRecord>) -> int
    decreases s.len(),
{
    if s.len() == 0 {
        0
    } else if max_gap(s.drop_last()) >= s.last().longest_gap {
        max_gap(s.drop_last())
    } else {
        s.last().longest_gap as int
    }
}

/// The fleet totals of `s` at `now`, each capped at the largest `i64`.
pub open spec fn stats_match(r: Stats, s: Seq<DeviceRecord>, now: i64) -> bool {
    &&& r.total_visits as int == clamp_i64(s.len() as int)
    &&& r.total_beats as int == clamp_i64(sum_beats(s))
    &&& r.total_uptime_milli as int == clamp_i64(sum_uptime(s, now))
    &&& r.longest_missing_beat as int == clamp_i64(max_gap(s))
    &&& r.last_beat_formatted is None
    &&& r.total_devices_formatted is None
    &&& r.total_visits_formatted is None
    &&& r.total_uptime_formatted is None
    &&& r.total_beats_formatted is None
}

/// `acc + x`, where `acc` is a total already capped at the largest `i64`.
fn add_capped(acc: u64, x: u64) -> (r: u64)
    requires
        acc <= i64::MAX,
    ensures
        r <= i64::MAX,
        r == clamp_i64(acc + x),
{
    if x >= i64::MAX as u64 - acc {
        i64::MAX as u64
    } else {
        acc + x
    }
}

/// Fleet-wide totals over a snapshot of the devices: every device in it has
/// beaten at least once, so each one counts as a visit.
pub fn aggregate(devices: &Vec<DeviceRecord>, now: i64) -> (r: Stats)
    ensures
        stats_match(r, devices@, now),
{
    let mut beats: u64 = 0;
    let mut uptime: u64 = 0;
    let mut longest: u64 = 0;
    let mut i: usize = 0;
    while i < devices.len()
        invariant
            i <= devices@.len(),
            beats <= i64::MAX,
            uptime <= i64::MAX,
            beats == clamp_i64(sum_beats(devices@.subrange(0, i as int))),
            uptime == clamp_i64(sum_uptime(devices@.subrange(0, i as int), now)),
            longest == max_gap(devices@.subrange(0, i as int)),
            sum_beats(devices@.subrange(0, i as int)) >= 0,
            sum_uptime(devices@.subrange(0, i as int), now) >= 0,
        decreases devices@.len() - i,
    {
        let d = &devices[i];
        let ghost prefix = devices@.subrange(0, i as int);
        let ghost next = devices@.subrange(0, i + 1);
        assert(next.drop_last() =~= prefix);
        beats = add_capped(beats, d.total_beats);
        uptime = add_capped(uptime, d.uptime(now));
        if d.longest_gap > longest {
            longest = d.longest_gap;
        }
        i = i + 1;
    }
    assert(devices@.subrange(0, i as int) =~= devices@);
    Stats {
        last_beat_formatted: None,
        total_devices_formatted: None,
        total_visits_formatted: None,
        total_uptime_formatted: None,
        total_beats_formatted: None,
        total_visits: saturate_i64(devices.len() as u64),
        total_uptime_milli: uptime as i64,
        total_beats: beats as i64,
        longest_missing_beat: saturate_i64(longest),
    }
}

impl DeviceRegistry {
    /// Fleet-wide totals at `now`, computed from a snapshot of every device.
    pub fn stats(&self, now: i64) -> (r: Stats)
        requires
            self.wf(),
        ensures
            stats_match(r, self@, now),
    {
        let devices = self.list_devices();
        aggregate(&devices, now)
    }
}

} // verus!

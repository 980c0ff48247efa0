use vstd::prelude::*;

verus! {

/// Human-readable fleet summary.
pub struct Info {
    pub last_seen: String,
    pub time_difference: String,
    pub missing_beat: String,
    pub total_beats: String,
}

impl Info {
    /// A summary with every field empty.
    pub fn new() -> (r: Info)
        ensures
            r.last_seen@ == Seq::<char>::empty(),
            r.time_difference@ == Seq::<char>::empty(),
            r.missing_beat@ == Seq::<char>::empty(),
            r.total_beats@ == Seq::<char>::empty(),
    {
        Info {
            last_seen: String::new(),
            time_difference: String::new(),
            missing_beat: String::new(),
            total_beats: String::new(),
        }
    }
}

/// One beat of a device, with its timestamp in epoch milliseconds.
pub struct Beat {
    pub device_name: String,
    pub timestamp: i64,
}

/// What a device looks like to a client.
pub struct Device {
    pub device_name: String,
    pub last_beat: Beat,
    pub total_beats: i64,
    pub longest_missing_beat: i64,
}

/// Fleet-wide totals. The raw values are always present; the formatted
/// fields are left for a presentation layer to fill.
pub struct Stats {
    pub last_beat_formatted: Option<String>,
    pub total_devices_formatted: Option<String>,
    pub total_visits_formatted: Option<String>,
    pub total_uptime_formatted: Option<String>,
    pub total_beats_formatted: Option<String>,
    pub total_visits: i64,
    pub total_uptime_milli: i64,
    pub total_beats: i64,
    pub longest_missing_beat: i64,
}

/// `x` capped at the largest `i64`.
pub open spec fn clamp_i64(x: int) -> int {
    if x > i64::MAX as int {
        i64::MAX as int
    } else {
        x
    }
}

/// Converts a non-negative count to `i64`, saturating at its largest value.
pub fn saturate_i64(x: u64) -> (r: i64)
    ensures
        r as int == clamp_i64(x as int),
{
    if x > i64::MAX as u64 {
        i64::MAX
    } else {
        x as i64
    }
}

} // verus!

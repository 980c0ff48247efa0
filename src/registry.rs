use vstd::prelude::*;
use vstd::utf8::encode_utf8;

use crate::detector::{
    gap, gap_spec, is_overdue, longest_gap_candidate, overdue_spec, DeviceState,
};
use crate::model::{clamp_i64, saturate_i64, Beat, Device};
use crate::order::{bytes_lt, compare_bytes, lemma_bytes_lt_strict_total_order};

verus! {

/// The liveness state of one device. Times are epoch milliseconds,
/// durations are milliseconds.
pub struct DeviceRecord {
    pub name: String,
    /// Timestamp of the first accepted beat.
    pub first_beat: i64,
    /// Timestamp of the most recent accepted beat.
    pub last_beat: i64,
    pub total_beats: u64,
    /// Largest gap seen between two beats, or up to a sweep while overdue.
    pub longest_gap: u64,
    /// Sum of the closed gaps that exceeded the expected interval.
    pub overdue_time: u64,
    pub state: DeviceState,
}

/// The key a device is identified and ordered by: the bytes of its name.
pub open spec fn name_key(name: Seq<char>) -> Seq<u8> {
    encode_utf8(name)
}

/// The record of a device on its first beat.
pub open spec fn first_record_spec(name: String, ts: i64) -> DeviceRecord {
    DeviceRecord {
        name,
        first_beat: ts,
        last_beat: ts,
        total_beats: 1,
        longest_gap: 0,
        overdue_time: 0,
        state: DeviceState::Alive,
    }
}

/// The record after an accepted beat at `ts` (later than its last beat).
pub open spec fn beat_spec(d: DeviceRecord, ts: i64, interval: u64) -> DeviceRecord {
    let g = gap_spec(d.last_beat, ts);
    DeviceRecord {
        name: d.name,
        first_beat: d.first_beat,
        last_beat: ts,
        total_beats: if d.total_beats < u64::MAX {
            (d.total_beats + 1) as u64
        } else {
            d.total_beats
        },
        longest_gap: if g > d.longest_gap { g as u64 } else { d.longest_gap },
        overdue_time: if g > interval { (d.overdue_time + g) as u64 } else { d.overdue_time },
        state: DeviceState::Alive,
    }
}

/// The record after a sweep at `now`: an overdue device is marked so, and the
/// open gap counts toward the longest gap.
pub open spec fn refresh_spec(d: DeviceRecord, interval: u64, now: i64) -> DeviceRecord {
    if overdue_spec(d.last_beat, interval, now) {
        let g = gap_spec(d.last_beat, now);
        DeviceRecord {
            longest_gap: if g > d.longest_gap { g as u64 } else { d.longest_gap },
            state: DeviceState::Overdue,
            ..d
        }
    } else {
        d
    }
}

/// Uptime of a device at `now`: time since its first beat less the closed
/// overdue gaps, never below zero.
pub open spec fn uptime_spec(d: DeviceRecord, now: i64) -> int {
    let span = gap_spec(d.first_beat, now);
    if span >= d.overdue_time {
        span - d.overdue_time
    } else {
        0
    }
}

/// `d` is what a client is shown of `rec`.
pub open spec fn shows(d: Device, rec: DeviceRecord) -> bool {
    &&& d.device_name@ == rec.name@
    &&& d.last_beat.device_name@ == rec.name@
    &&& d.last_beat.timestamp == rec.last_beat
    &&& d.total_beats as int == clamp_i64(rec.total_beats as int)
    &&& d.longest_missing_beat as int == clamp_i64(rec.longest_gap as int)
}

/// The record after accepting, in order, a beat at each timestamp of `ts`.
pub open spec fn apply_beats(d: DeviceRecord, ts: Seq<i64>, interval: u64) -> DeviceRecord
    decreases ts.len(),
{
    if ts.len() == 0 {
        d
    } else {
        apply_beats(beat_spec(d, ts[0], interval), ts.drop_first(), interval)
    }
}

pub open spec fn strictly_increasing(ts: Seq<i64>) -> bool {
    forall|i: int, j: int| 0 <= i < j < ts.len() ==> ts[i] < ts[j]
}

proof fn lemma_apply_beats_count(d: DeviceRecord, ts: Seq<i64>, interval: u64)
    requires
        strictly_increasing(ts),
        d.total_beats + ts.len() <= u64::MAX,
    ensures
        apply_beats(d, ts, interval).total_beats == d.total_beats + ts.len(),
        ts.len() > 0 ==> apply_beats(d, ts, interval).last_beat == ts.last(),
        ts.len() == 0 ==> apply_beats(d, ts, interval).last_beat == d.last_beat,
    decreases ts.len(),
{
    if ts.len() > 0 {
        let rest = ts.drop_first();
        assert(strictly_increasing(rest)) by {
            assert forall|i: int, j: int| 0 <= i < j < rest.len() implies rest[i] < rest[j] by {
                assert(rest[i] == ts[i + 1] && rest[j] == ts[j + 1]);
            }
        }
        lemma_apply_beats_count(beat_spec(d, ts[0], interval), rest, interval);
        if rest.len() > 0 {
            assert(rest.last() == ts.last());
        }
    }
}

/// A device that accepts beats at strictly increasing timestamps has, after
/// N of them, a count of N and the last timestamp as its last beat.
pub proof fn lemma_beat_count(name: String, ts: Seq<i64>, interval: u64)
    requires
        strictly_increasing(ts),
        0 < ts.len() <= u64::MAX,
    ensures
        apply_beats(first_record_spec(name, ts[0]), ts.drop_first(), interval).total_beats
            == ts.len(),
        apply_beats(first_record_spec(name, ts[0]), ts.drop_first(), interval).last_beat
            == ts.last(),
{
    let rest = ts.drop_first();
    assert(strictly_increasing(rest)) by {
        assert forall|i: int, j: int| 0 <= i < j < rest.len() implies rest[i] < rest[j] by {
            assert(rest[i] == ts[i + 1] && rest[j] == ts[j + 1]);
        }
    }
    lemma_apply_beats_count(first_record_spec(name, ts[0]), rest, interval);
    if rest.len() > 0 {
        assert(rest.last() == ts.last());
    }
}

/// The longest gap of a device never shrinks: neither an accepted beat nor a
/// sweep lowers it.
pub proof fn lemma_longest_gap_monotone(d: DeviceRecord, ts: i64, interval: u64, now: i64)
    requires
        d.wf(),
        d.last_beat < ts,
    ensures
        beat_spec(d, ts, interval).longest_gap >= d.longest_gap,
        refresh_spec(d, interval, now).longest_gap >= d.longest_gap,
{
}

impl DeviceRecord {
    pub open spec fn key(&self) -> Seq<u8> {
        name_key(self.name@)
    }

    /// Each accepted beat has a later timestamp than the one before, so the
    /// count and the closed gaps are bounded by the time spanned.
    pub open spec fn wf(&self) -> bool {
        &&& self.first_beat <= self.last_beat
        &&& self.total_beats >= 1
        &&& self.total_beats - 1 <= gap_spec(self.first_beat, self.last_beat)
        &&& self.overdue_time <= gap_spec(self.first_beat, self.last_beat)
        &&& self.state != DeviceState::New
    }

    /// A copy of the record.
    pub fn snapshot(&self) -> (r: DeviceRecord)
        ensures
            r == *self,
    {
        DeviceRecord {
            name: self.name.clone(),
            first_beat: self.first_beat,
            last_beat: self.last_beat,
            total_beats: self.total_beats,
            longest_gap: self.longest_gap,
            overdue_time: self.overdue_time,
            state: self.state,
        }
    }

    /// The record as a client sees it; counts beyond `i64` saturate.
    pub fn to_device(&self) -> (r: Device)
        ensures
            shows(r, *self),
    {
        Device {
            device_name: self.name.clone(),
            last_beat: Beat { device_name: self.name.clone(), timestamp: self.last_beat },
            total_beats: saturate_i64(self.total_beats),
            longest_missing_beat: saturate_i64(self.longest_gap),
        }
    }

    /// Uptime at `now` in milliseconds.
    pub fn uptime(&self, now: i64) -> (r: u64)
        ensures
            r as int == uptime_spec(*self, now),
    {
        if now < self.first_beat {
            return 0;
        }
        let span = gap(self.first_beat, now);
        if span >= self.overdue_time {
            span - self.overdue_time
        } else {
            0
        }
    }
}

/// Every device seen so far, kept in order of name.
pub struct DeviceRegistry {
    /// How long a device may stay silent before it is overdue.
    expected_interval: u64,
    devices: Vec<DeviceRecord>,
}

impl View for DeviceRegistry {
    type V = Seq<DeviceRecord>;

    closed spec fn view(&self) -> Seq<DeviceRecord> {
        self.devices@
    }
}

/// Records are well formed and strictly ordered by name, so names are unique.
pub open spec fn sorted_records(s: Seq<DeviceRecord>) -> bool {
    &&& forall|i: int| 0 <= i < s.len() ==> (#[trigger] s[i]).wf()
    &&& forall|i: int, j: int|
        0 <= i < j < s.len() ==> bytes_lt(#[trigger] s[i].key(), #[trigger] s[j].key())
}

/// Some record holds the name with key `k`.
pub open spec fn holds_key(s: Seq<DeviceRecord>, k: Seq<u8>) -> bool {
    exists|i: int| 0 <= i < s.len() && (#[trigger] s[i]).key() == k
}

impl DeviceRegistry {
    /// How long a device may stay silent before it is overdue.
    pub closed spec fn interval(&self) -> u64 {
        self.expected_interval
    }

    pub fn expected_interval(&self) -> (r: u64)
        ensures
            r == self.interval(),
    {
        self.expected_interval
    }

    pub open spec fn wf(&self) -> bool {
        sorted_records(self@)
    }

    /// An empty registry whose devices are expected to beat within
    /// `expected_interval` milliseconds.
    pub fn new(expected_interval: u64) -> (r: DeviceRegistry)
        ensures
            r.wf(),
            r@ == Seq::<DeviceRecord>::empty(),
            r.interval() == expected_interval,
    {
        DeviceRegistry { expected_interval, devices: Vec::new() }
    }

    /// Number of devices seen.
    pub fn len(&self) -> (r: usize)
        ensures
            r == self@.len(),
    {
        self.devices.len()
    }

    /// Position of the device named `name`, or where it would be inserted.
    fn locate(&self, name: &String) -> (r: (usize, bool))
        requires
            self.wf(),
        ensures
            r.0 <= self@.len(),
            r.1 ==> r.0 < self@.len() && self@[r.0 as int].key() == name_key(name@),
            !r.1 ==> !holds_key(self@, name_key(name@)),
            forall|j: int| 0 <= j < r.0 ==> bytes_lt(#[trigger] self@[j].key(), name_key(name@)),
            !r.1 ==> forall|j: int|
                r.0 <= j < self@.len() ==> bytes_lt(name_key(name@), #[trigger] self@[j].key()),
    {
        let k = name.as_str().as_bytes();
        let ghost key = name_key(name@);
        let mut i: usize = 0;
        while i < self.devices.len()
            invariant
                i <= self@.len(),
                k@ == key,
                key == name_key(name@),
                self.wf(),
                forall|j: int| 0 <= j < i ==> bytes_lt(#[trigger] self@[j].key(), key),
            decreases self@.len() - i,
        {
            let nb = self.devices[i].name.as_str().as_bytes();
            let c = compare_bytes(nb, k);
            if c == 0 {
                return (i, true);
            }
            if c > 0 {
                assert forall|j: int| i <= j < self@.len() implies bytes_lt(
                    key,
                    #[trigger] self@[j].key(),
                ) by {
                    lemma_bytes_lt_strict_total_order(key, self@[i as int].key(), self@[j].key());
                }
                assert forall|j: int| 0 <= j < self@.len() implies (#[trigger] self@[j]).key()
                    != key by {
                    lemma_bytes_lt_strict_total_order(key, key, key);
                }
                return (i, false);
            }
            i = i + 1;
        }
        assert forall|j: int| 0 <= j < self@.len() implies (#[trigger] self@[j]).key() != key by {
            lemma_bytes_lt_strict_total_order(key, key, key);
        }
        (i, false)
    }

    /// Records a beat of the device `name` at `ts`. A beat that is not later
    /// than the device's last one is rejected and changes nothing; otherwise
    /// the device is created on its first beat or updated. Returns whether the
    /// beat was accepted, and the device as it now stands.
    pub fn record_beat(&mut self, name: String, ts: i64) -> (r: (bool, DeviceRecord))
        requires
            old(self).wf(),
        ensures
            final(self).wf(),
            final(self).interval() == old(self).interval(),
            forall|i: int|
                0 <= i < old(self)@.len() && (#[trigger] old(self)@[i]).key() == name_key(name@)
                    ==> if ts <= old(self)@[i].last_beat {
                    &&& !r.0
                    &&& r.1 == old(self)@[i]
                    &&& final(self)@ == old(self)@
                } else {
                    &&& r.0
                    &&& r.1 == beat_spec(old(self)@[i], ts, old(self).interval())
                    &&& final(self)@ == old(self)@.update(i, r.1)
                },
            !holds_key(old(self)@, name_key(name@)) ==> {
                &&& r.0
                &&& r.1 == first_record_spec(name, ts)
                &&& exists|j: int|
                    0 <= j <= old(self)@.len() && final(self)@ == old(self)@.insert(j, r.1)
            },
    {
        let (i, found) = self.locate(&name);
        if found {
            proof {
                self.lemma_key_unique(i as int);
            }
            let d = self.devices[i].snapshot();
            if ts <= d.last_beat {
                return (false, d);
            }
            let g = gap(d.last_beat, ts);
            let total_beats = if d.total_beats < u64::MAX {
                d.total_beats + 1
            } else {
                d.total_beats
            };
            let overdue_time = if g > self.expected_interval {
                d.overdue_time + g
            } else {
                d.overdue_time
            };
            let rec = DeviceRecord {
                name: d.name,
                first_beat: d.first_beat,
                last_beat: ts,
                total_beats,
                longest_gap: longest_gap_candidate(d.longest_gap, g),
                overdue_time,
                state: DeviceState::Alive,
            };
            let out = rec.snapshot();
            let ghost old_seq = self@;
            self.devices.set(i, rec);
            proof {
                assert(self@ =~= old_seq.update(i as int, out));
                assert(out == beat_spec(old_seq[i as int], ts, self.interval()));
                assert forall|a: int, b: int|
                    0 <= a < b < self@.len() implies bytes_lt(#[trigger] self@[a].key(), #[trigger] self@[b].key()) by {
                    assert(old_seq[a].key() == self@[a].key());
                    assert(old_seq[b].key() == self@[b].key());
                }
            }
            (true, out)
        } else {
            let rec = DeviceRecord {
                name,
                first_beat: ts,
                last_beat: ts,
                total_beats: 1,
                longest_gap: 0,
                overdue_time: 0,
                state: DeviceState::Alive,
            };
            let out = rec.snapshot();
            let ghost old_seq = self@;
            self.devices.insert(i, rec);
            proof {
                let k = out.key();
                assert(self@ =~= old_seq.insert(i as int, out));
                assert forall|a: int, b: int|
                    0 <= a < b < self@.len() implies bytes_lt(#[trigger] self@[a].key(), #[trigger] self@[b].key()) by {
                    if b < i {
                    } else if a < i && b == i {
                    } else if a < i && b > i {
                        lemma_bytes_lt_strict_total_order(self@[a].key(), k, self@[b].key());
                    } else if a == i {
                        assert(old_seq[b - 1] == self@[b]);
                    } else {
                        assert(old_seq[a - 1] == self@[a]);
                        assert(old_seq[b - 1] == self@[b]);
                    }
                }
            }
            (true, out)
        }
    }

    /// The device named `name`, if it has ever beaten.
    pub fn get_device(&self, name: &String) -> (r: Option<DeviceRecord>)
        requires
            self.wf(),
        ensures
            r is None <==> !holds_key(self@, name_key(name@)),
            forall|i: int|
                0 <= i < self@.len() && (#[trigger] self@[i]).key() == name_key(name@)
                    ==> r == Some(self@[i]),
    {
        let (i, found) = self.locate(name);
        if found {
            proof {
                self.lemma_key_unique(i as int);
            }
            Some(self.devices[i].snapshot())
        } else {
            None
        }
    }

    proof fn lemma_key_unique(&self, i: int)
        requires
            self.wf(),
            0 <= i < self@.len(),
        ensures
            forall|j: int|
                0 <= j < self@.len() && (#[trigger] self@[j]).key() == self@[i].key() ==> j == i,
    {
        assert forall|j: int|
            0 <= j < self@.len() && (#[trigger] self@[j]).key() == self@[i].key() implies j == i by {
            lemma_bytes_lt_strict_total_order(self@[j].key(), self@[j].key(), self@[j].key());
        }
    }

    /// A copy of every device, in order of name.
    pub fn list_devices(&self) -> (r: Vec<DeviceRecord>)
        requires
            self.wf(),
        ensures
            r@ == self@,
            sorted_records(r@),
    {
        let mut out: Vec<DeviceRecord> = Vec::new();
        let mut i: usize = 0;
        while i < self.devices.len()
            invariant
                i <= self@.len(),
                out@ == self@.subrange(0, i as int),
            decreases self@.len() - i,
        {
            out.push(self.devices[i].snapshot());
            assert(out@ =~= self@.subrange(0, i + 1));
            i = i + 1;
        }
        assert(out@ =~= self@);
        out
    }

    /// Re-samples the device at position `i` at time `now`.
    fn refresh_at(&mut self, i: usize, now: i64)
        requires
            old(self).wf(),
            i < old(self)@.len(),
        ensures
            final(self).wf(),
            final(self).interval() == old(self).interval(),
            final(self)@ == old(self)@.update(i as int, refresh_spec(old(self)@[i as int], old(self).interval(), now)),
    {
        let d = self.devices[i].snapshot();
        if is_overdue(d.last_beat, self.expected_interval, now) {
            let g = gap(d.last_beat, now);
            let rec = DeviceRecord {
                longest_gap: longest_gap_candidate(d.longest_gap, g),
                state: DeviceState::Overdue,
                ..d
            };
            let ghost old_seq = self@;
            self.devices.set(i, rec);
            proof {
                assert forall|a: int, b: int|
                    0 <= a < b < self@.len() implies bytes_lt(#[trigger] self@[a].key(), #[trigger] self@[b].key()) by {
                    assert(old_seq[a].key() == self@[a].key());
                    assert(old_seq[b].key() == self@[b].key());
                }
            }
        } else {
            assert(self@ =~= self@.update(i as int, d));
        }
    }

    /// Re-samples the device `name` at `now`: if its open gap exceeds the
    /// expected interval it becomes overdue and the gap counts toward its
    /// longest gap. Returns whether the device is known.
    pub fn refresh_overdue(&mut self, name: &String, now: i64) -> (r: bool)
        requires
            old(self).wf(),
        ensures
            final(self).wf(),
            final(self).interval() == old(self).interval(),
            r == holds_key(old(self)@, name_key(name@)),
            !r ==> final(self)@ == old(self)@,
            forall|i: int|
                0 <= i < old(self)@.len() && (#[trigger] old(self)@[i]).key() == name_key(name@)
                    ==> final(self)@ == old(self)@.update(i, refresh_spec(old(self)@[i], old(self).interval(), now)),
    {
        let (i, found) = self.locate(name);
        if found {
            proof {
                self.lemma_key_unique(i as int);
            }
            self.refresh_at(i, now);
        }
        found
    }

    /// One pass of the sweeper: every device is re-sampled at `now`.
    pub fn sweep(&mut self, now: i64)
        requires
            old(self).wf(),
        ensures
            final(self).wf(),
            final(self).interval() == old(self).interval(),
            final(self)@.len() == old(self)@.len(),
            forall|i: int|
                0 <= i < old(self)@.len() ==> #[trigger] final(self)@[i] == refresh_spec(
                    old(self)@[i],
                    old(self).interval(),
                    now,
                ),
    {
        let ghost start = self@;
        let mut i: usize = 0;
        while i < self.devices.len()
            invariant
                self.wf(),
                self.interval() == old(self).interval(),
                start == old(self)@,
                self@.len() == start.len(),
                i <= start.len(),
                forall|j: int| 0 <= j < i ==> #[trigger] self@[j] == refresh_spec(start[j], self.interval(), now),
                forall|j: int| i <= j < start.len() ==> #[trigger] self@[j] == start[j],
            decreases start.len() - i,
        {
            self.refresh_at(i, now);
            i = i + 1;
        }
    }

    /// The most recent beat of any device, none while no device has beaten.
    pub fn last_seen(&self) -> (r: Option<i64>)
        requires
            self.wf(),
        ensures
            r is None <==> self@.len() == 0,
            r matches Some(t) ==> (forall|i: int| 0 <= i < self@.len() ==> #[trigger] self@[i].last_beat <= t)
                && exists|i: int| 0 <= i < self@.len() && #[trigger] self@[i].last_beat == t,
    {
        let mut best: Option<i64> = None;
        let mut i: usize = 0;
        while i < self.devices.len()
            invariant
                i <= self@.len(),
                best is None <==> i == 0,
                best matches Some(t) ==> (forall|j: int| 0 <= j < i ==> #[trigger] self@[j].last_beat <= t)
                    && exists|j: int| 0 <= j < i && #[trigger] self@[j].last_beat == t,
            decreases self@.len() - i,
        {
            let t = self.devices[i].last_beat;
            best = match best {
                Some(b) if b >= t => Some(b),
                _ => Some(t),
            };
            i = i + 1;
        }
        best
    }
}

} // verus!

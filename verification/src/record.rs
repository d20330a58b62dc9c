//! Battery samples and their mathematical model.
//!
//! A sample's time is the local wall-clock reading in seconds (the instant the
//! row was written, as seconds since the epoch of that local reading).
//! Capacity is kept in hundredths of a percent and power in milliwatts, so
//! every quantity of the analytics is an exact integer.

use vstd::prelude::*;

verus! {

/// Latest local second this library reasons about (end of year 9999).
pub const MAX_TIME_SECS: i64 = 253_402_300_799;

/// A store never holds more samples than this; keeps index arithmetic in range.
pub const MAX_RECORDS: usize = 1_000_000_000;

/// Capacity is a percentage in hundredths: 0 .. 100_00.
pub const MAX_CAPACITY_CENTI: i64 = 10_000;

/// Magnitude bound on a sample's power in milliwatts.
pub const MAX_POWER_MILLIWATTS: i64 = 1_000_000_000_000;

/// Mathematical model of one battery sample.
pub ghost struct Rec {
    /// Local wall-clock seconds.
    pub time: int,
    /// Status text as read from the source.
    pub status: Seq<char>,
    /// Capacity in hundredths of a percent.
    pub capacity: int,
    /// Power draw in milliwatts.
    pub power: int,
}

/// One battery sample.
pub struct BatteryRecord {
    /// Local wall-clock seconds.
    pub time: i64,
    /// Status text (`Charging`, `Discharging`, `Full`, or anything else).
    pub status: String,
    /// Capacity in hundredths of a percent.
    pub capacity: i64,
    /// Power draw in milliwatts.
    pub power: i64,
}

impl View for BatteryRecord {
    type V = Rec;

    open spec fn view(&self) -> Rec {
        Rec {
            time: self.time as int,
            status: self.status@,
            capacity: self.capacity as int,
            power: self.power as int,
        }
    }
}

impl DeepView for BatteryRecord {
    type V = Rec;

    open spec fn deep_view(&self) -> Rec {
        self.view()
    }
}

impl Clone for BatteryRecord {
    fn clone(&self) -> (r: Self)
        ensures
            r@ == self@,
    {
        BatteryRecord {
            time: self.time,
            status: self.status.clone(),
            capacity: self.capacity,
            power: self.power,
        }
    }
}

/// A sample is well formed when each quantity lies in the machine range the
/// analytics assume.
pub open spec fn rec_wf(r: Rec) -> bool {
    &&& 0 <= r.time <= MAX_TIME_SECS
    &&& 0 <= r.capacity <= MAX_CAPACITY_CENTI
    &&& -MAX_POWER_MILLIWATTS <= r.power <= MAX_POWER_MILLIWATTS
}

/// Samples are appended in time order and never re-sorted; a well-formed
/// sequence is one whose samples are all well formed and non-decreasing in
/// time.
pub open spec fn rows_wf(s: Seq<Rec>) -> bool {
    &&& forall|i: int| 0 <= i < s.len() ==> rec_wf(#[trigger] s[i])
    &&& forall|i: int, j: int| 0 <= i < j < s.len() ==> #[trigger] s[i].time <= #[trigger] s[j].time
}

/// Decides `rows_wf` for a vector of samples, so unverified callers can
/// check a batch of rows before handing it to the store.
pub fn rows_ok(rows: &Vec<BatteryRecord>) -> (r: bool)
    ensures
        r == rows_wf(rows.deep_view()),
{
    let ghost s = rows.deep_view();
    let n = rows.len();
    let mut i: usize = 0;
    while i < n
        invariant
            0 <= i <= n,
            n == rows@.len(),
            s == rows.deep_view(),
            n == s.len(),
            forall|k: int| 0 <= k < i ==> rec_wf(#[trigger] s[k]),
            forall|k: int| 0 < k < i ==> s[k - 1].time <= #[trigger] s[k].time,
        decreases n - i,
    {
        proof {
            assert(s[i as int] == rows@[i as int]@);
        }
        let r = &rows[i];
        let rec_in_range = 0 <= r.time && r.time <= MAX_TIME_SECS && 0 <= r.capacity
            && r.capacity <= MAX_CAPACITY_CENTI && -MAX_POWER_MILLIWATTS <= r.power
            && r.power <= MAX_POWER_MILLIWATTS;
        if !rec_in_range {
            proof {
                assert(!rec_wf(s[i as int]));
            }
            return false;
        }
        if i > 0 {
            proof {
                assert(s[i as int - 1] == rows@[i as int - 1]@);
            }
            if rows[i - 1].time > rows[i].time {
                proof {
                    assert(s[i as int - 1].time > s[i as int].time);
                }
                return false;
            }
        }
        i = i + 1;
    }
    proof {
        assert forall|p: int, q: int| 0 <= p < q < s.len() implies #[trigger] s[p].time
            <= #[trigger] s[q].time by {
            lemma_adjacent_sorted_implies_pairwise(s, p, q);
        }
    }
    true
}

/// From adjacent ordering to ordering of any earlier/later pair.
proof fn lemma_adjacent_sorted_implies_pairwise(s: Seq<Rec>, p: int, q: int)
    requires
        forall|k: int| 0 < k < s.len() ==> s[k - 1].time <= #[trigger] s[k].time,
        0 <= p <= q < s.len(),
    ensures
        s[p].time <= s[q].time,
    decreases q - p,
{
    if p < q {
        lemma_adjacent_sorted_implies_pairwise(s, p, q - 1);
        assert(s[q - 1].time <= s[q].time);
    }
}

} // verus!

//! Sleep detection: which sampling gaps count as device suspension.
//!
//! A gap of at least ten minutes between adjacent samples is a sleep period,
//! unless capacity fell across it faster than the drain ceiling — a steep
//! drop over a long gap means the logger was not running rather than that
//! the device slept.

use vstd::prelude::*;

use crate::app::App;
use crate::record::MAX_CAPACITY_CENTI;
use crate::record::MAX_TIME_SECS;
use crate::record::Rec;
use crate::record::rec_wf;
use crate::record::rows_wf;

verus! {

/// A gap must last at least this long to count as sleep.
pub const SLEEP_THRESHOLD_SECS: i64 = 600;

/// Fastest capacity fall, in hundredths of a percent per hour, that still
/// counts as sleep; anything steeper is classified as logger downtime.
pub const MAX_SLEEP_DRAIN_CENTI_PER_HOUR: i64 = 500;

/// A detected sleep gap. Times are local wall-clock seconds; the capacity
/// difference (wake minus sleep, in hundredths of a percent) may be positive
/// when the device charged while suspended.
#[derive(Debug, Clone, Copy, PartialEq, Eq, Structural)]
pub struct SleepPeriod {
    pub start_time: i64,
    pub end_time: i64,
    pub duration_secs: i64,
    pub capacity_diff: i64,
}

/// A plausible sleep period: ordered times in range, the duration matching
/// them, and the capacity difference within the capacity scale.
pub open spec fn period_wf(p: SleepPeriod) -> bool {
    &&& 0 <= p.start_time <= p.end_time <= MAX_TIME_SECS
    &&& p.duration_secs == p.end_time - p.start_time
    &&& p.duration_secs >= SLEEP_THRESHOLD_SECS
    &&& -MAX_CAPACITY_CENTI <= p.capacity_diff <= MAX_CAPACITY_CENTI
}

/// Chronological, pairwise non-overlapping, well-formed periods.
pub open spec fn periods_wf(ps: Seq<SleepPeriod>) -> bool {
    &&& forall|i: int| 0 <= i < ps.len() ==> period_wf(#[trigger] ps[i])
    &&& forall|i: int, j: int|
        0 <= i < j < ps.len() ==> #[trigger] ps[i].end_time <= #[trigger] ps[j].start_time
}

/// Whether the gap between two adjacent samples is a sleep period: long
/// enough, and the capacity fall across it no steeper than the ceiling.
pub open spec fn gap_qualifies(prev: Rec, curr: Rec) -> bool {
    let gap = curr.time - prev.time;
    &&& gap >= SLEEP_THRESHOLD_SECS
    &&& 3600 * (prev.capacity - curr.capacity) <= MAX_SLEEP_DRAIN_CENTI_PER_HOUR * gap
}

/// The sleep period a qualifying gap yields.
pub open spec fn period_of(prev: Rec, curr: Rec) -> SleepPeriod {
    SleepPeriod {
        start_time: prev.time as i64,
        end_time: curr.time as i64,
        duration_secs: (curr.time - prev.time) as i64,
        capacity_diff: (curr.capacity - prev.capacity) as i64,
    }
}

/// The sleep periods among the adjacent pairs from position `i` on.
pub open spec fn sleep_periods_from(rs: Seq<Rec>, i: int) -> Seq<SleepPeriod>
    decreases rs.len() - i,
{
    if 1 <= i < rs.len() {
        (if gap_qualifies(rs[i - 1], rs[i]) {
            seq![period_of(rs[i - 1], rs[i])]
        } else {
            Seq::empty()
        }) + sleep_periods_from(rs, i + 1)
    } else {
        Seq::empty()
    }
}

/// All sleep periods of a sample sequence, one per qualifying adjacent gap,
/// in order.
pub open spec fn sleep_periods_spec(rs: Seq<Rec>) -> Seq<SleepPeriod> {
    sleep_periods_from(rs, 1)
}

/// Sleep periods of an ordered, well-formed sample sequence are well formed,
/// chronological and pairwise non-overlapping, each starting no earlier than
/// the sample that opens the scan.
proof fn lemma_sleep_periods_from_wf(rs: Seq<Rec>, i: int)
    requires
        rows_wf(rs),
        1 <= i,
    ensures
        periods_wf(sleep_periods_from(rs, i)),
        forall|k: int|
            0 <= k < sleep_periods_from(rs, i).len() ==> (#[trigger] sleep_periods_from(
                rs,
                i,
            )[k]).start_time >= rs[i - 1].time,
    decreases rs.len() - i,
{
    let ps = sleep_periods_from(rs, i);
    if 1 <= i < rs.len() {
        lemma_sleep_periods_from_wf(rs, i + 1);
        let rest = sleep_periods_from(rs, i + 1);
        assert(rec_wf(rs[i - 1]));
        assert(rec_wf(rs[i]));
        assert(rs[i - 1].time <= rs[i].time);
        if gap_qualifies(rs[i - 1], rs[i]) {
            let p0 = period_of(rs[i - 1], rs[i]);
            assert(period_wf(p0));
            assert(ps == seq![p0] + rest);
            assert(ps[0] == p0);
            assert(forall|k: int| 0 <= k < rest.len() ==> ps[k + 1] == #[trigger] rest[k]);
            assert forall|k: int, l: int| 0 <= k < l < ps.len() implies #[trigger] ps[k].end_time
                <= #[trigger] ps[l].start_time by {
                if k == 0 {
                    assert(ps[l] == rest[l - 1]);
                    assert(rest[l - 1].start_time >= rs[i].time);
                } else {
                    assert(ps[k] == rest[k - 1]);
                    assert(ps[l] == rest[l - 1]);
                }
            }
            assert forall|k: int| 0 <= k < ps.len() implies period_wf(#[trigger] ps[k]) by {
                if k > 0 {
                    assert(ps[k] == rest[k - 1]);
                }
            }
            assert forall|k: int| 0 <= k < ps.len() implies (#[trigger] ps[k]).start_time >= rs[i
                - 1].time by {
                if k > 0 {
                    assert(ps[k] == rest[k - 1]);
                    assert(rest[k - 1].start_time >= rs[i].time);
                }
            }
        } else {
            assert(ps =~= rest);
            assert forall|k: int| 0 <= k < ps.len() implies (#[trigger] ps[k]).start_time >= rs[i
                - 1].time by {
                assert(ps[k] == rest[k]);
                assert(rest[k].start_time >= rs[i].time);
            }
        }
    }
}

/// What `detect_sleep_periods` yields is chronological, pairwise
/// non-overlapping, and well formed.
pub proof fn lemma_sleep_periods_ordered(rs: Seq<Rec>)
    requires
        rows_wf(rs),
    ensures
        periods_wf(sleep_periods_spec(rs)),
{
    lemma_sleep_periods_from_wf(rs, 1);
}

impl App {
    /// Scans adjacent samples for qualifying gaps. The result lists one
    /// period per gap, chronologically, pairwise non-overlapping.
    pub fn detect_sleep_periods(&self) -> (r: Vec<SleepPeriod>)
        requires
            self.wf(),
        ensures
            r@ == sleep_periods_spec(self.records.deep_view()),
            periods_wf(r@),
    {
        let ghost rs = self.records.deep_view();
        let mut out: Vec<SleepPeriod> = Vec::new();
        let n = self.records.len();
        if n < 2 {
            proof {
                assert(out@ =~= sleep_periods_spec(rs));
                lemma_sleep_periods_ordered(rs);
            }
            return out;
        }
        let mut i: usize = 1;
        while i < n
            invariant
                1 <= i <= n,
                n == self.records@.len(),
                rs == self.records.deep_view(),
                rs.len() == n,
                rows_wf(rs),
                out@ + sleep_periods_from(rs, i as int) == sleep_periods_spec(rs),
            decreases n - i,
        {
            proof {
                assert(rs[i - 1] == self.records@[i - 1]@);
                assert(rs[i as int] == self.records@[i as int]@);
            }
            let prev_time = self.records[i - 1].time;
            let prev_capacity = self.records[i - 1].capacity;
            let curr_time = self.records[i].time;
            let curr_capacity = self.records[i].capacity;
            let time_diff = curr_time - prev_time;
            let qualifies = time_diff >= SLEEP_THRESHOLD_SECS && 3600 * (prev_capacity
                - curr_capacity) <= MAX_SLEEP_DRAIN_CENTI_PER_HOUR * time_diff;
            let ghost before = out@;
            if qualifies {
                out.push(
                    SleepPeriod {
                        start_time: prev_time,
                        end_time: curr_time,
                        duration_secs: time_diff,
                        capacity_diff: curr_capacity - prev_capacity,
                    },
                );
                proof {
                    assert(out@.last() == period_of(rs[i - 1], rs[i as int]));
                    assert(out@ + sleep_periods_from(rs, i + 1) =~= before + sleep_periods_from(
                        rs,
                        i as int,
                    ));
                }
            } else {
                proof {
                    assert(out@ + sleep_periods_from(rs, i + 1) =~= before + sleep_periods_from(
                        rs,
                        i as int,
                    ));
                }
            }
            i = i + 1;
        }
        proof {
            assert(out@ =~= out@ + sleep_periods_from(rs, n as int));
            lemma_sleep_periods_ordered(rs);
        }
        out
    }

    /// The latest sleep period, or `None` when there is none.
    pub fn last_sleep_period(&self) -> (r: Option<SleepPeriod>)
        requires
            self.wf(),
        ensures
            sleep_periods_spec(self.records.deep_view()).len() == 0 <==> r is None,
            sleep_periods_spec(self.records.deep_view()).len() > 0 ==> r == Some(
                sleep_periods_spec(self.records.deep_view()).last(),
            ),
    {
        let periods = self.detect_sleep_periods();
        let n = periods.len();
        if n == 0 {
            None
        } else {
            Some(periods[n - 1])
        }
    }
}

} // verus!

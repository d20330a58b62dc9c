//! The compressed time axis: a display coordinate that tracks elapsed
//! wall-clock time but collapses in-view sleep gaps to zero width.

use vstd::prelude::*;

use crate::record::MAX_TIME_SECS;
use crate::sleep::SleepPeriod;
use crate::sleep::periods_wf;

verus! {

/// How much of a sleep period counts toward compression: its length, with a
/// start before the window's base truncated at the base, and never negative.
pub open spec fn truncated_sleep(p: SleepPeriod, base: int) -> int {
    let start = if p.start_time >= base {
        p.start_time as int
    } else {
        base
    };
    if p.end_time - start > 0 {
        p.end_time - start
    } else {
        0
    }
}

/// Total truncated length of the sleep periods ending at or before `t`.
pub open spec fn total_sleep_before_spec(t: int, base: int, ps: Seq<SleepPeriod>) -> int
    decreases ps.len(),
{
    if ps.len() == 0 {
        0
    } else {
        (if ps[0].end_time <= t {
            truncated_sleep(ps[0], base)
        } else {
            0
        }) + total_sleep_before_spec(t, base, ps.drop_first())
    }
}

/// The compressed x-coordinate of instant `t`: elapsed time since the base,
/// minus the sleep collapsed before `t`.
pub open spec fn compressed_x_spec(t: int, base: int, ps: Seq<SleepPeriod>) -> int {
    (t - base) - total_sleep_before_spec(t, base, ps)
}

/// Total sleep is non-negative, and non-decreasing in the instant: the
/// periods counted at `t1` are also counted at any later `t2`, and every
/// contribution is non-negative.
pub proof fn lemma_total_sleep_nonneg_monotone(t1: int, t2: int, base: int, ps: Seq<SleepPeriod>)
    requires
        t1 <= t2,
    ensures
        0 <= total_sleep_before_spec(t1, base, ps),
        total_sleep_before_spec(t1, base, ps) <= total_sleep_before_spec(t2, base, ps),
    decreases ps.len(),
{
    if ps.len() > 0 {
        lemma_total_sleep_nonneg_monotone(t1, t2, base, ps.drop_first());
    }
}

/// Sleep periods that are ordered and disjoint, all starting at or after
/// `lo`, cannot collapse more time than lies between `max(lo, base)` and `t`.
proof fn lemma_total_sleep_upper(t: int, base: int, ps: Seq<SleepPeriod>, lo: int)
    requires
        periods_wf(ps),
        forall|k: int| 0 <= k < ps.len() ==> (#[trigger] ps[k]).start_time >= lo,
    ensures
        total_sleep_before_spec(t, base, ps) <= {
            let floor = if lo >= base {
                lo
            } else {
                base
            };
            if t - floor > 0 {
                t - floor
            } else {
                0
            }
        },
    decreases ps.len(),
{
    if ps.len() > 0 {
        let rest = ps.drop_first();
        let p0 = ps[0];
        assert(forall|k: int| 0 <= k < rest.len() ==> #[trigger] rest[k] == ps[k + 1]);
        assert(periods_wf(rest));
        assert forall|k: int| 0 <= k < rest.len() implies (#[trigger] rest[k]).start_time
            >= p0.end_time by {
            assert(rest[k] == ps[k + 1]);
            assert(ps[0].end_time <= ps[k + 1].start_time);
        }
        lemma_total_sleep_upper(t, base, rest, p0.end_time as int);
    }
}

/// Total sleep before `t` never exceeds the elapsed time since the base.
pub proof fn lemma_total_sleep_at_most_elapsed(t: int, base: int, ps: Seq<SleepPeriod>)
    requires
        periods_wf(ps),
        base >= 0,
    ensures
        total_sleep_before_spec(t, base, ps) <= (if t - base > 0 {
            t - base
        } else {
            0
        }),
{
    lemma_total_sleep_upper(t, base, ps, 0);
}

/// Between two instants with no sleep period ending in `(t1, t2]`, the same
/// periods are counted, so the totals agree.
proof fn lemma_total_sleep_equal_without_end_between(
    t1: int,
    t2: int,
    base: int,
    ps: Seq<SleepPeriod>,
)
    requires
        t1 <= t2,
        forall|k: int| 0 <= k < ps.len() ==> !(t1 < (#[trigger] ps[k]).end_time <= t2),
    ensures
        total_sleep_before_spec(t1, base, ps) == total_sleep_before_spec(t2, base, ps),
    decreases ps.len(),
{
    if ps.len() > 0 {
        let rest = ps.drop_first();
        assert(forall|k: int| 0 <= k < rest.len() ==> #[trigger] rest[k] == ps[k + 1]);
        lemma_total_sleep_equal_without_end_between(t1, t2, base, rest);
        assert(!(t1 < ps[0].end_time <= t2));
    }
}

/// For any two instants not separated by a sleep period — none of the given
/// periods ends in `(t1, t2]` — the compressed coordinate is strictly
/// increasing in real time; indeed it advances by exactly the elapsed time.
pub proof fn lemma_compressed_x_strictly_increasing(
    t1: int,
    t2: int,
    base: int,
    ps: Seq<SleepPeriod>,
)
    requires
        t1 < t2,
        forall|k: int| 0 <= k < ps.len() ==> !(t1 < (#[trigger] ps[k]).end_time <= t2),
    ensures
        compressed_x_spec(t1, base, ps) < compressed_x_spec(t2, base, ps),
        compressed_x_spec(t2, base, ps) - compressed_x_spec(t1, base, ps) == t2 - t1,
{
    lemma_total_sleep_equal_without_end_between(t1, t2, base, ps);
}

/// `total_sleep_before_spec` over one more period of the prefix.
proof fn lemma_total_sleep_take_step(t: int, base: int, ps: Seq<SleepPeriod>, i: int)
    requires
        0 <= i < ps.len(),
    ensures
        total_sleep_before_spec(t, base, ps.take(i + 1)) == total_sleep_before_spec(
            t,
            base,
            ps.take(i),
        ) + (if ps[i].end_time <= t {
            truncated_sleep(ps[i], base)
        } else {
            0
        }),
    decreases i,
{
    if i == 0 {
        assert(ps.take(1).drop_first() =~= ps.take(0));
        assert(ps.take(1)[0] == ps[0]);
    } else {
        let s = ps.drop_first();
        lemma_total_sleep_take_step(t, base, s, i - 1);
        assert(ps.take(i + 1).drop_first() =~= s.take(i));
        assert(ps.take(i).drop_first() =~= s.take(i - 1));
        assert(ps.take(i + 1)[0] == ps[0]);
        assert(ps.take(i)[0] == ps[0]);
        assert(s[i - 1] == ps[i]);
    }
}

/// A prefix of a well-formed period sequence is well formed.
proof fn lemma_periods_wf_take(ps: Seq<SleepPeriod>, i: int)
    requires
        periods_wf(ps),
        0 <= i <= ps.len(),
    ensures
        periods_wf(ps.take(i)),
{
    assert(forall|k: int| 0 <= k < i ==> #[trigger] ps.take(i)[k] == ps[k]);
}

/// Sum over the periods ending at or before `timestamp` of their truncated
/// length: sleep that started before the window's base counts only from the
/// base on.
pub fn total_sleep_before(timestamp: i64, base_time: i64, sleep_periods: &Vec<SleepPeriod>) -> (r:
    i64)
    requires
        periods_wf(sleep_periods@),
        0 <= base_time <= MAX_TIME_SECS,
        -MAX_TIME_SECS <= timestamp <= MAX_TIME_SECS,
    ensures
        r as int == total_sleep_before_spec(
            timestamp as int,
            base_time as int,
            sleep_periods@,
        ),
        0 <= r,
        r as int <= (if timestamp - base_time > 0 {
            timestamp - base_time
        } else {
            0
        }),
{
    let ghost ps = sleep_periods@;
    let ghost t = timestamp as int;
    let ghost base = base_time as int;
    let n = sleep_periods.len();
    let mut acc: i64 = 0;
    let mut i: usize = 0;
    proof {
        assert(ps.take(0) =~= Seq::<SleepPeriod>::empty());
    }
    while i < n
        invariant
            0 <= i <= n,
            n == ps.len(),
            ps == sleep_periods@,
            periods_wf(ps),
            0 <= base <= MAX_TIME_SECS,
            -MAX_TIME_SECS <= t <= MAX_TIME_SECS,
            t == timestamp as int,
            base == base_time as int,
            acc as int == total_sleep_before_spec(t, base, ps.take(i as int)),
            0 <= acc,
            acc as int <= (if t - base > 0 {
                t - base
            } else {
                0
            }),
        decreases n - i,
    {
        let p = sleep_periods[i];
        let ghost before = acc as int;
        proof {
            lemma_total_sleep_take_step(t, base, ps, i as int);
            lemma_periods_wf_take(ps, i + 1);
            lemma_total_sleep_nonneg_monotone(t, t, base, ps.take(i + 1));
            lemma_total_sleep_at_most_elapsed(t, base, ps.take(i + 1));
        }
        if p.end_time <= timestamp {
            let start = if p.start_time >= base_time {
                p.start_time
            } else {
                base_time
            };
            let len = p.end_time - start;
            let contribution = if len > 0 {
                len
            } else {
                0
            };
            acc = acc + contribution;
        }
        i = i + 1;
    }
    proof {
        assert(ps.take(n as int) =~= ps);
    }
    acc
}

/// The compressed x-coordinate of instant `timestamp`: elapsed seconds since
/// the base minus the sleep collapsed before it.
pub fn to_compressed_x(timestamp: i64, base_time: i64, sleep_periods: &Vec<SleepPeriod>) -> (r:
    i64)
    requires
        periods_wf(sleep_periods@),
        0 <= base_time <= MAX_TIME_SECS,
        -MAX_TIME_SECS <= timestamp <= MAX_TIME_SECS,
    ensures
        r as int == compressed_x_spec(timestamp as int, base_time as int, sleep_periods@),
        base_time <= timestamp ==> 0 <= r <= timestamp - base_time,
{
    let sleep = total_sleep_before(timestamp, base_time, sleep_periods);
    (timestamp - base_time) - sleep
}

} // verus!

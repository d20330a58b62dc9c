//! Assembling the renderable chart: compressed point series, axis bounds,
//! sleep markers, and time labels.

use vstd::prelude::*;

use crate::app::App;
use crate::axis::compressed_x_spec;
use crate::axis::to_compressed_x;
use crate::axis::total_sleep_before;
use crate::record::Rec;
use crate::record::rows_wf;
use crate::sleep::SleepPeriod;
use crate::sleep::periods_wf;
use crate::sleep::sleep_periods_spec;
use crate::text::hhmm_chars;
use crate::text::hhmm_label;
use crate::view::ViewMode;
use crate::view::effective_mode_spec;
use crate::view::full_sampled;
use crate::view::window_filtered;
use crate::view::windowed_spec;
use crate::view::MAX_FULL_POINTS;

verus! {

/// A renderable snapshot: the two `(compressed x, value)` series (capacity
/// in hundredths of a percent, power in milliwatts), the x-axis bound pair,
/// one marker per in-view sleep period at its wake instant, and the three
/// `HH:MM` labels (start, middle, end).
pub struct ChartData {
    pub capacity_data: Vec<(i64, i64)>,
    pub power_data: Vec<(i64, i64)>,
    pub time_range: (i64, i64),
    pub sleep_markers: Vec<(i64, SleepPeriod)>,
    pub x_labels: Vec<String>,
}

/// The sleep periods intersecting the displayed window.
pub open spec fn in_view_periods(ps: Seq<SleepPeriod>, start: int, end: int) -> Seq<SleepPeriod> {
    ps.filter(|p: SleepPeriod| p.end_time >= start && p.start_time <= end)
}

/// The compressed width of the window: the compressed coordinate of its last
/// instant.
pub open spec fn compressed_duration_spec(f: Seq<Rec>, sv: Seq<SleepPeriod>) -> int {
    compressed_x_spec(f.last().time, f[0].time, sv)
}

/// Distance, in doubled compressed units, between sample `i` and the middle
/// of the compressed window of width `cd`.
pub open spec fn middist(f: Seq<Rec>, base: int, sv: Seq<SleepPeriod>, cd: int, i: int) -> int {
    let d = 2 * compressed_x_spec(f[i].time, base, sv) - cd;
    if d < 0 {
        -d
    } else {
        d
    }
}

/// Among the first `n` samples, the position nearest the compressed middle;
/// the latest such position when several are equally near.
pub open spec fn nearest_mid_upto(
    f: Seq<Rec>,
    base: int,
    sv: Seq<SleepPeriod>,
    cd: int,
    n: int,
) -> int
    decreases n,
{
    if n <= 1 {
        0
    } else {
        let prev = nearest_mid_upto(f, base, sv, cd, n - 1);
        if middist(f, base, sv, cd, n - 1) <= middist(f, base, sv, cd, prev) {
            n - 1
        } else {
            prev
        }
    }
}

/// Filtering periods to the view keeps them well formed, ordered, and under
/// any common end bound.
proof fn lemma_in_view_wf(ps: Seq<SleepPeriod>, lo: int, hi: int, bound: int)
    requires
        periods_wf(ps),
        forall|k: int| 0 <= k < ps.len() ==> (#[trigger] ps[k]).end_time <= bound,
    ensures
        periods_wf(in_view_periods(ps, lo, hi)),
        forall|k: int|
            0 <= k < in_view_periods(ps, lo, hi).len() ==> (#[trigger] in_view_periods(
                ps,
                lo,
                hi,
            )[k]).end_time <= bound,
    decreases ps.len(),
{
    reveal(Seq::filter);
    let f = in_view_periods(ps, lo, hi);
    if ps.len() == 0 {
        assert(f =~= ps);
    } else {
        let head = ps.drop_last();
        assert(periods_wf(head) && forall|k: int|
            0 <= k < head.len() ==> (#[trigger] head[k]).end_time <= bound) by {
            assert(forall|k: int| 0 <= k < head.len() ==> #[trigger] head[k] == ps[k]);
        }
        lemma_in_view_wf(head, lo, hi, bound);
        let fh = in_view_periods(head, lo, hi);
        let keep = ps.last().end_time >= lo && ps.last().start_time <= hi;
        if keep {
            assert(f == fh.push(ps.last()));
            assert forall|k: int| 0 <= k < f.len() implies crate::sleep::period_wf(#[trigger] f[k])
                && f[k].end_time <= bound by {
                if k < f.len() - 1 {
                    assert(f[k] == fh[k]);
                } else {
                    assert(f[k] == ps.last());
                    assert(ps.last() == ps[ps.len() - 1]);
                }
            }
            assert forall|i: int, j: int| 0 <= i < j < f.len() implies #[trigger] f[i].end_time
                <= #[trigger] f[j].start_time by {
                if j < f.len() - 1 {
                    assert(f[i] == fh[i] && f[j] == fh[j]);
                } else {
                    assert(f[j] == ps.last());
                    assert(f[i] == fh[i]);
                    assert(fh[i].end_time <= ps.last().start_time) by {
                        lemma_in_view_members(head, lo, hi, i);
                    }
                }
            }
        } else {
            assert(f == fh);
        }
    }
}

/// Each filtered period is one of the originals, in order.
proof fn lemma_in_view_members(ps: Seq<SleepPeriod>, lo: int, hi: int, i: int)
    requires
        periods_wf(ps),
        0 <= i < in_view_periods(ps, lo, hi).len(),
    ensures
        exists|j: int|
            0 <= j < ps.len() && #[trigger] ps[j] == in_view_periods(ps, lo, hi)[i]
                && in_view_periods(ps, lo, hi)[i].end_time <= ps.last().end_time,
    decreases ps.len(),
{
    reveal(Seq::filter);
    let f = in_view_periods(ps, lo, hi);
    let head = ps.drop_last();
    assert(periods_wf(head)) by {
        assert(forall|k: int| 0 <= k < head.len() ==> #[trigger] head[k] == ps[k]);
    }
    let fh = in_view_periods(head, lo, hi);
    let keep = ps.last().end_time >= lo && ps.last().start_time <= hi;
    if keep && i == f.len() - 1 {
        assert(f[i] == ps.last());
        assert(ps[ps.len() - 1] == f[i]);
    } else {
        assert(f[i] == fh[i]);
        lemma_in_view_members(head, lo, hi, i);
        let j = choose|j: int|
            0 <= j < head.len() && #[trigger] head[j] == fh[i] && fh[i].end_time
                <= head.last().end_time;
        assert(ps[j] == f[i]);
        if ps.len() >= 2 {
            assert(head.last() == ps[ps.len() - 2]);
            assert(ps[ps.len() - 2].end_time <= ps[ps.len() - 1].start_time);
            assert(ps.last().start_time <= ps.last().end_time);
        }
    }
}

/// Every sleep period of a store ends no later than the last sample.
proof fn lemma_sleep_ends_at_samples(rs: Seq<Rec>, i: int)
    requires
        rows_wf(rs),
        1 <= i,
    ensures
        forall|k: int|
            0 <= k < crate::sleep::sleep_periods_from(rs, i).len() ==> (
            #[trigger] crate::sleep::sleep_periods_from(rs, i)[k]).end_time <= rs.last().time,
    decreases rs.len() - i,
{
    let ps = crate::sleep::sleep_periods_from(rs, i);
    if 1 <= i < rs.len() {
        lemma_sleep_ends_at_samples(rs, i + 1);
        let rest = crate::sleep::sleep_periods_from(rs, i + 1);
        if crate::sleep::gap_qualifies(rs[i - 1], rs[i]) {
            assert(forall|k: int| 0 <= k < rest.len() ==> ps[k + 1] == #[trigger] rest[k]);
            assert forall|k: int| 0 <= k < ps.len() implies (#[trigger] ps[k]).end_time
                <= rs.last().time by {
                if k == 0 {
                    assert(ps[0] == crate::sleep::period_of(rs[i - 1], rs[i]));
                    assert(rs[i].time <= rs[rs.len() - 1].time);
                } else {
                    assert(ps[k] == rest[k - 1]);
                }
            }
        } else {
            assert(ps =~= rest);
        }
    }
}

/// The window a mode shows ends with the store's latest sample.
proof fn lemma_windowed_last(rs: Seq<Rec>, mode: ViewMode)
    requires
        rows_wf(rs),
        rs.len() > 0,
    ensures
        windowed_spec(rs, mode).len() > 0,
        windowed_spec(rs, mode).last() == rs.last(),
{
    reveal(Seq::filter);
    match crate::view::window_secs_of(mode) {
        Some(w) => {
            let cutoff = rs.last().time - w;
            let head = rs.drop_last();
            assert(w >= 0);
            assert(windowed_spec(rs, mode) == window_filtered(head, cutoff).push(rs.last()));
        },
        None => {
            if rs.len() <= MAX_FULL_POINTS {
            } else {
                assert(full_sampled(rs).last() == rs.last());
            }
        },
    }
}

impl App {
    /// The renderable snapshot of the effective window: point series over
    /// the compressed axis, the axis bound `(0, max(60, width))`, one marker
    /// per in-view sleep period at its wake instant, and `HH:MM` labels for
    /// the first sample, the sample nearest the compressed middle, and the
    /// last sample. An empty store yields the fixed empty chart.
    #[verifier::rlimit(60)]
    pub fn chart_data(&self) -> (r: ChartData)
        requires
            self.wf(),
        ensures
            ({
                let rs = self.records.deep_view();
                let f = windowed_spec(rs, effective_mode_spec(rs, self.view_mode));
                &&& f.len() == 0 ==> {
                    &&& r.capacity_data@.len() == 0
                    &&& r.power_data@.len() == 0
                    &&& r.time_range == (0i64, 60i64)
                    &&& r.sleep_markers@.len() == 0
                    &&& r.x_labels@.len() == 3
                    &&& forall|k: int| 0 <= k < 3 ==> (#[trigger] r.x_labels@[k])@ =~= Seq::<
                        char,
                    >::empty()
                }
                &&& f.len() > 0 ==> {
                    let base = f[0].time;
                    let view_end = f.last().time;
                    let sv = in_view_periods(sleep_periods_spec(rs), base, view_end);
                    let cd = compressed_duration_spec(f, sv);
                    &&& r.capacity_data@.len() == f.len()
                    &&& forall|i: int|
                        0 <= i < f.len() ==> (#[trigger] r.capacity_data@[i]).0 as int
                            == compressed_x_spec(f[i].time, base, sv) && r.capacity_data@[i].1
                            as int == f[i].capacity
                    &&& r.power_data@.len() == f.len()
                    &&& forall|i: int|
                        0 <= i < f.len() ==> (#[trigger] r.power_data@[i]).0 as int
                            == compressed_x_spec(f[i].time, base, sv) && r.power_data@[i].1 as int
                            == f[i].power
                    &&& r.time_range.0 == 0i64
                    &&& r.time_range.1 as int == (if cd > 60 {
                        cd
                    } else {
                        60
                    })
                    &&& r.sleep_markers@.len() == sv.len()
                    &&& forall|i: int|
                        0 <= i < sv.len() ==> (#[trigger] r.sleep_markers@[i]).0 as int
                            == compressed_x_spec(sv[i].end_time as int, base, sv) && r.sleep_markers@[i].1
                            == sv[i]
                    &&& r.x_labels@.len() == 3
                    &&& r.x_labels@[0]@ == hhmm_chars(base)
                    &&& r.x_labels@[1]@ == hhmm_chars(
                        f[nearest_mid_upto(f, base, sv, cd, f.len() as int)].time,
                    )
                    &&& r.x_labels@[2]@ == hhmm_chars(view_end)
                }
            }),
    {
        let ghost rs = self.records.deep_view();
        let filtered = self.filtered_records();
        let ghost f = filtered.deep_view();
        let n = filtered.len();
        if n == 0 {
            let mut x_labels: Vec<String> = Vec::new();
            x_labels.push(String::new());
            x_labels.push(String::new());
            x_labels.push(String::new());
            return ChartData {
                capacity_data: Vec::new(),
                power_data: Vec::new(),
                time_range: (0, 60),
                sleep_markers: Vec::new(),
                x_labels,
            };
        }
        proof {
            assert(f[0] == filtered@[0]@);
            assert(f[n - 1] == filtered@[n - 1]@);
            assert(crate::record::rec_wf(f[0]));
            assert(crate::record::rec_wf(f[n - 1]));
        }
        let base = filtered[0].time;
        let view_end = filtered[n - 1].time;
        let all_periods = self.detect_sleep_periods();
        let ghost aps = sleep_periods_spec(rs);
        proof {
            if rs.len() > 0 {
                lemma_windowed_last(rs, effective_mode_spec(rs, self.view_mode));
                lemma_sleep_ends_at_samples(rs, 1);
            }
            assert(view_end as int == rs.last().time);
        }
        let mut sv: Vec<SleepPeriod> = Vec::new();
        let m = all_periods.len();
        let mut i: usize = 0;
        proof {
            reveal(Seq::filter);
            assert(sv@ =~= in_view_periods(aps.take(0), base as int, view_end as int));
        }
        while i < m
            invariant
                0 <= i <= m,
                m == all_periods@.len(),
                aps == all_periods@,
                sv@ == in_view_periods(aps.take(i as int), base as int, view_end as int),
            decreases m - i,
        {
            let p = all_periods[i];
            if p.end_time >= base && p.start_time <= view_end {
                sv.push(p);
            }
            proof {
                reveal(Seq::filter);
                assert(aps.take(i + 1).drop_last() =~= aps.take(i as int));
                assert(aps.take(i + 1).last() == aps[i as int]);
                assert(sv@ =~= in_view_periods(aps.take(i + 1), base as int, view_end as int));
            }
            i = i + 1;
        }
        proof {
            assert(aps.take(m as int) =~= aps);
            lemma_in_view_wf(aps, base as int, view_end as int, view_end as int);
        }
        let ghost svs = sv@;
        let mut capacity_data: Vec<(i64, i64)> = Vec::new();
        let mut power_data: Vec<(i64, i64)> = Vec::new();
        let mut i: usize = 0;
        while i < n
            invariant
                0 <= i <= n,
                n == filtered@.len(),
                f == filtered.deep_view(),
                f.len() == n,
                rows_wf(f),
                svs == sv@,
                periods_wf(svs),
                base as int == f[0].time,
                0 <= base <= crate::record::MAX_TIME_SECS,
                capacity_data@.len() == i,
                power_data@.len() == i,
                forall|j: int|
                    0 <= j < i ==> (#[trigger] capacity_data@[j]).0 as int == compressed_x_spec(
                        f[j].time,
                        base as int,
                        svs,
                    ) && capacity_data@[j].1 as int == f[j].capacity,
                forall|j: int|
                    0 <= j < i ==> (#[trigger] power_data@[j]).0 as int == compressed_x_spec(
                        f[j].time,
                        base as int,
                        svs,
                    ) && power_data@[j].1 as int == f[j].power,
            decreases n - i,
        {
            proof {
                assert(f[i as int] == filtered@[i as int]@);
                assert(crate::record::rec_wf(f[i as int]));
            }
            let x = to_compressed_x(filtered[i].time, base, &sv);
            capacity_data.push((x, filtered[i].capacity));
            power_data.push((x, filtered[i].power));
            i = i + 1;
        }
        let total = total_sleep_before(view_end, base, &sv);
        let compressed_duration = (view_end - base) - total;
        proof {
            assert(compressed_duration as int == compressed_duration_spec(f, svs));
            assert(f[0].time <= f[n - 1].time);
            assert(0 <= compressed_duration);
        }
        let hi = if compressed_duration > 60 {
            compressed_duration
        } else {
            60
        };
        let time_range = (0i64, hi);
        let mut sleep_markers: Vec<(i64, SleepPeriod)> = Vec::new();
        let k = sv.len();
        let mut i: usize = 0;
        while i < k
            invariant
                0 <= i <= k,
                k == sv@.len(),
                svs == sv@,
                periods_wf(svs),
                f == filtered.deep_view(),
                f.len() >= 1,
                base as int == f[0].time,
                0 <= base <= crate::record::MAX_TIME_SECS,
                sleep_markers@.len() == i,
                forall|j: int|
                    0 <= j < i ==> (#[trigger] sleep_markers@[j]).0 as int == compressed_x_spec(
                        svs[j].end_time as int,
                        base as int,
                        svs,
                    ) && sleep_markers@[j].1 == svs[j],
            decreases k - i,
        {
            let p = sv[i];
            proof {
                assert(crate::sleep::period_wf(svs[i as int]));
            }
            let x = to_compressed_x(p.end_time, base, &sv);
            sleep_markers.push((x, p));
            i = i + 1;
        }
        let start_label = hhmm_label(base);
        let end_label = hhmm_label(view_end);
        let ghost cd = compressed_duration as int;
        let mut best: usize = 0;
        let first_x = to_compressed_x(filtered[0].time, base, &sv);
        let d0 = 2 * first_x - compressed_duration;
        let mut best_d: i64 = if d0 < 0 {
            -d0
        } else {
            d0
        };
        let mut i: usize = 1;
        proof {
            assert(best as int == nearest_mid_upto(f, base as int, svs, cd, 1));
            assert(best_d as int == middist(f, base as int, svs, cd, 0));
        }
        while i < n
            invariant
                1 <= i <= n,
                n == filtered@.len(),
                f == filtered.deep_view(),
                f.len() == n,
                rows_wf(f),
                svs == sv@,
                periods_wf(svs),
                base as int == f[0].time,
                0 <= base <= crate::record::MAX_TIME_SECS,
                cd == compressed_duration as int,
                0 <= compressed_duration <= crate::record::MAX_TIME_SECS,
                best < i,
                best as int == nearest_mid_upto(f, base as int, svs, cd, i as int),
                best_d as int == middist(f, base as int, svs, cd, best as int),
            decreases n - i,
        {
            proof {
                assert(f[i as int] == filtered@[i as int]@);
                assert(crate::record::rec_wf(f[i as int]));
            }
            let xi = to_compressed_x(filtered[i].time, base, &sv);
            let di_raw = 2 * xi - compressed_duration;
            let di: i64 = if di_raw < 0 {
                -di_raw
            } else {
                di_raw
            };
            proof {
                assert(f[0].time <= f[i as int].time);
                assert(di as int == middist(f, base as int, svs, cd, i as int));
            }
            if di <= best_d {
                best = i;
                best_d = di;
            }
            i = i + 1;
        }
        let mid_label = hhmm_label(filtered[best].time);
        proof {
            assert(f[best as int] == filtered@[best as int]@);
            assert(crate::record::rec_wf(f[best as int]));
        }
        let mut x_labels: Vec<String> = Vec::new();
        x_labels.push(start_label);
        x_labels.push(mid_label);
        x_labels.push(end_label);
        ChartData {
            capacity_data,
            power_data,
            time_range,
            sleep_markers,
            x_labels,
        }
    }
}

} // verus!

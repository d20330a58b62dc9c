//! Display windows: the five view modes and their order, which samples each
//! mode shows, and the adaptive widening to a usable window.

use vstd::prelude::*;

use vstd::arithmetic::div_mod::lemma_div_is_ordered;
use vstd::arithmetic::div_mod::lemma_div_multiples_vanish;
use vstd::arithmetic::div_mod::lemma_fundamental_div_mod;
use vstd::arithmetic::mul::lemma_mul_inequality;

use crate::app::App;
use crate::record::BatteryRecord;
use crate::record::Rec;
use crate::record::rec_wf;
use crate::record::rows_wf;

verus! {

/// How much trailing history the chart shows. The five values are totally
/// ordered from narrowest to widest; `Full` shows the whole day.
#[derive(Debug, Clone, Copy, PartialEq, Eq, Structural)]
pub enum ViewMode {
    Recent30m,
    Recent1h,
    Recent4h,
    Recent12h,
    Full,
}

/// Position of a mode under the total order, `Recent30m` lowest.
pub open spec fn rank(m: ViewMode) -> int {
    match m {
        ViewMode::Recent30m => 0,
        ViewMode::Recent1h => 1,
        ViewMode::Recent4h => 2,
        ViewMode::Recent12h => 3,
        ViewMode::Full => 4,
    }
}

/// Cyclic successor: the next wider mode, wrapping from `Full` back to
/// `Recent30m`.
pub open spec fn toggled(m: ViewMode) -> ViewMode {
    match m {
        ViewMode::Recent30m => ViewMode::Recent1h,
        ViewMode::Recent1h => ViewMode::Recent4h,
        ViewMode::Recent4h => ViewMode::Recent12h,
        ViewMode::Recent12h => ViewMode::Full,
        ViewMode::Full => ViewMode::Recent30m,
    }
}

/// Monotone successor: the next wider mode, `None` at `Full`.
pub open spec fn expanded(m: ViewMode) -> Option<ViewMode> {
    match m {
        ViewMode::Recent30m => Some(ViewMode::Recent1h),
        ViewMode::Recent1h => Some(ViewMode::Recent4h),
        ViewMode::Recent4h => Some(ViewMode::Recent12h),
        ViewMode::Recent12h => Some(ViewMode::Full),
        ViewMode::Full => None,
    }
}

/// Nominal trailing window length in seconds; `None` for `Full`.
pub open spec fn window_secs_of(m: ViewMode) -> Option<int> {
    match m {
        ViewMode::Recent30m => Some(30int * 60),
        ViewMode::Recent1h => Some(60int * 60),
        ViewMode::Recent4h => Some(4int * 60 * 60),
        ViewMode::Recent12h => Some(12int * 60 * 60),
        ViewMode::Full => None,
    }
}

/// Minimum data duration, in seconds, for the mode to count as usable.
pub open spec fn min_data_secs_of(m: ViewMode) -> int {
    match m {
        ViewMode::Recent30m => 5int * 60,
        ViewMode::Recent1h => 10int * 60,
        ViewMode::Recent4h => 30int * 60,
        ViewMode::Recent12h => 60int * 60,
        ViewMode::Full => 0,
    }
}

/// Short display name of the mode.
pub open spec fn label_of(m: ViewMode) -> Seq<char> {
    match m {
        ViewMode::Recent30m => "30m"@,
        ViewMode::Recent1h => "1h"@,
        ViewMode::Recent4h => "4h"@,
        ViewMode::Recent12h => "12h"@,
        ViewMode::Full => "Full"@,
    }
}

impl ViewMode {
    /// User-driven successor; cycles through all five modes.
    pub fn toggle(&self) -> (r: Self)
        ensures
            r == toggled(*self),
            rank(r) == (rank(*self) + 1) % 5,
    {
        match self {
            ViewMode::Recent30m => ViewMode::Recent1h,
            ViewMode::Recent1h => ViewMode::Recent4h,
            ViewMode::Recent4h => ViewMode::Recent12h,
            ViewMode::Recent12h => ViewMode::Full,
            ViewMode::Full => ViewMode::Recent30m,
        }
    }

    /// Widening successor; stops at `Full`.
    pub fn expand(&self) -> (r: Option<Self>)
        ensures
            r == expanded(*self),
            r is Some <==> *self != ViewMode::Full,
            r matches Some(m) ==> rank(m) == rank(*self) + 1,
    {
        match self {
            ViewMode::Recent30m => Some(ViewMode::Recent1h),
            ViewMode::Recent1h => Some(ViewMode::Recent4h),
            ViewMode::Recent4h => Some(ViewMode::Recent12h),
            ViewMode::Recent12h => Some(ViewMode::Full),
            ViewMode::Full => None,
        }
    }

    /// Short display name.
    pub fn label(&self) -> (r: &'static str)
        ensures
            r@ == label_of(*self),
    {
        match self {
            ViewMode::Recent30m => "30m",
            ViewMode::Recent1h => "1h",
            ViewMode::Recent4h => "4h",
            ViewMode::Recent12h => "12h",
            ViewMode::Full => "Full",
        }
    }

    /// Nominal trailing window length in seconds; `None` for `Full`.
    pub fn window_secs(&self) -> (r: Option<i64>)
        ensures
            r matches Some(w) ==> window_secs_of(*self) == Some(w as int),
            r is None <==> window_secs_of(*self) is None,
    {
        match self {
            ViewMode::Recent30m => Some(30 * 60),
            ViewMode::Recent1h => Some(60 * 60),
            ViewMode::Recent4h => Some(4 * 60 * 60),
            ViewMode::Recent12h => Some(12 * 60 * 60),
            ViewMode::Full => None,
        }
    }

    /// Minimum data duration, in seconds, for this mode to be usable.
    pub fn min_data_secs(&self) -> (r: i64)
        ensures
            r as int == min_data_secs_of(*self),
    {
        match self {
            ViewMode::Recent30m => 5 * 60,
            ViewMode::Recent1h => 10 * 60,
            ViewMode::Recent4h => 30 * 60,
            ViewMode::Recent12h => 60 * 60,
            ViewMode::Full => 0,
        }
    }
}

/// How many points `Full` mode shows at most before down-sampling.
pub const MAX_FULL_POINTS: usize = 500;

/// The samples at or after the cutoff instant, in order.
pub open spec fn window_filtered(rs: Seq<Rec>, cutoff: int) -> Seq<Rec> {
    rs.filter(|r: Rec| r.time >= cutoff)
}

/// `Full` mode's down-sampling: past the point bound, every `step`-th sample
/// (`step` is the point count over the bound) with the most recent sample
/// forced in at the end.
pub open spec fn full_sampled(rs: Seq<Rec>) -> Seq<Rec> {
    if rs.len() <= MAX_FULL_POINTS {
        rs
    } else {
        let step = rs.len() as int / MAX_FULL_POINTS as int;
        Seq::new((((rs.len() - 1) / step) + 1) as nat, |k: int| rs[k * step]).push(rs.last())
    }
}

/// The samples a mode shows: those within its trailing window, measured from
/// the latest sample; all of them (down-sampled) for `Full`.
pub open spec fn windowed_spec(rs: Seq<Rec>, mode: ViewMode) -> Seq<Rec> {
    if rs.len() == 0 {
        Seq::empty()
    } else {
        match window_secs_of(mode) {
            Some(w) => window_filtered(rs, rs.last().time - w),
            None => full_sampled(rs),
        }
    }
}

/// Filtering keeps samples well formed and in time order, and no sample past
/// the latest one appears.
proof fn lemma_window_filtered_wf(rs: Seq<Rec>, cutoff: int)
    requires
        rows_wf(rs),
    ensures
        rows_wf(window_filtered(rs, cutoff)),
        forall|k: int|
            0 <= k < window_filtered(rs, cutoff).len() ==> rs.len() > 0 && (
            #[trigger] window_filtered(rs, cutoff)[k]).time <= rs.last().time,
    decreases rs.len(),
{
    reveal(Seq::filter);
    let f = window_filtered(rs, cutoff);
    if rs.len() == 0 {
        assert(f =~= rs);
    } else {
        let head = rs.drop_last();
        assert(rows_wf(head)) by {
            assert(forall|k: int| 0 <= k < head.len() ==> #[trigger] head[k] == rs[k]);
        }
        lemma_window_filtered_wf(head, cutoff);
        let fh = window_filtered(head, cutoff);
        if rs.last().time >= cutoff {
            assert(f == fh.push(rs.last()));
            assert forall|i: int, j: int| 0 <= i < j < f.len() implies #[trigger] f[i].time
                <= #[trigger] f[j].time by {
                if j < f.len() - 1 {
                    assert(f[i] == fh[i] && f[j] == fh[j]);
                } else {
                    assert(f[j] == rs.last());
                    if i < f.len() - 1 {
                        assert(f[i] == fh[i]);
                        if head.len() > 0 {
                            assert(fh[i].time <= head.last().time);
                            assert(head.last() == rs[rs.len() - 2]);
                            assert(rs[rs.len() - 2].time <= rs[rs.len() - 1].time);
                        }
                    }
                }
            }
            assert forall|k: int| 0 <= k < f.len() implies rec_wf(#[trigger] f[k]) by {
                if k < f.len() - 1 {
                    assert(f[k] == fh[k]);
                } else {
                    assert(f[k] == rs.last());
                    assert(rs.last() == rs[rs.len() - 1]);
                }
            }
            assert forall|k: int| 0 <= k < f.len() implies (#[trigger] f[k]).time
                <= rs.last().time by {
                if k < f.len() - 1 {
                    assert(f[k] == fh[k]);
                    if head.len() > 0 {
                        assert(fh[k].time <= head.last().time);
                        assert(head.last() == rs[rs.len() - 2]);
                        assert(rs[rs.len() - 2].time <= rs[rs.len() - 1].time);
                    }
                }
            }
        } else {
            assert(f == fh);
            assert forall|k: int| 0 <= k < f.len() implies rs.len() > 0 && (#[trigger] f[k]).time
                <= rs.last().time by {
                assert(f[k] == fh[k]);
                if head.len() > 0 {
                    assert(fh[k].time <= head.last().time);
                    assert(head.last() == rs[rs.len() - 2]);
                    assert(rs[rs.len() - 2].time <= rs[rs.len() - 1].time);
                }
            }
        }
    }
}

/// The window a mode shows is well formed whenever the store is.
pub proof fn lemma_windowed_wf(rs: Seq<Rec>, mode: ViewMode)
    requires
        rows_wf(rs),
    ensures
        rows_wf(windowed_spec(rs, mode)),
{
    let f = windowed_spec(rs, mode);
    if rs.len() == 0 {
    } else {
        match window_secs_of(mode) {
            Some(w) => {
                lemma_window_filtered_wf(rs, rs.last().time - w);
            },
            None => {
                if rs.len() <= MAX_FULL_POINTS {
                } else {
                    let step = rs.len() as int / MAX_FULL_POINTS as int;
                    let count = ((rs.len() - 1) / step) + 1;
                    assert(step >= 1) by {
                        assert(rs.len() as int / MAX_FULL_POINTS as int >= 1) by {
                            lemma_div_is_ordered(
                                MAX_FULL_POINTS as int,
                                rs.len() as int,
                                MAX_FULL_POINTS as int,
                            );
                            vstd::arithmetic::div_mod::lemma_div_by_self(
                                MAX_FULL_POINTS as int,
                            );
                        }
                    }
                    lemma_full_sampled_indices(rs);
                    assert forall|i: int, j: int| 0 <= i < j < f.len() implies #[trigger] f[i].time
                        <= #[trigger] f[j].time by {
                        lemma_full_index_in_range(rs, i);
                        if j < f.len() - 1 {
                            lemma_full_index_in_range(rs, j);
                            lemma_mul_inequality(i, j, step);
                            assert(rs[i * step].time <= rs[j * step].time);
                        } else {
                            assert(f[j] == rs.last());
                            assert(rs[i * step].time <= rs[rs.len() - 1].time);
                        }
                    }
                    assert forall|k: int| 0 <= k < f.len() implies rec_wf(#[trigger] f[k]) by {
                        if k < f.len() - 1 {
                            lemma_full_index_in_range(rs, k);
                        } else {
                            assert(f[k] == rs.last());
                        }
                    }
                }
            },
        }
    }
}

/// In the down-sampled `Full` view, each position before the forced last
/// point reads the sample at its stepped index, which is in range.
proof fn lemma_full_index_in_range(rs: Seq<Rec>, k: int)
    requires
        rs.len() > MAX_FULL_POINTS,
        0 <= k < ((rs.len() - 1) / (rs.len() as int / MAX_FULL_POINTS as int)) + 1,
    ensures
        0 <= k * (rs.len() as int / MAX_FULL_POINTS as int) < rs.len(),
        full_sampled(rs)[k] == rs[k * (rs.len() as int / MAX_FULL_POINTS as int)],
{
    let step = rs.len() as int / MAX_FULL_POINTS as int;
    let count = ((rs.len() - 1) / step) + 1;
    assert(step >= 1) by {
        lemma_div_is_ordered(MAX_FULL_POINTS as int, rs.len() as int, MAX_FULL_POINTS as int);
        vstd::arithmetic::div_mod::lemma_div_by_self(MAX_FULL_POINTS as int);
    }
    assert(k * step >= 0) by {
        lemma_mul_inequality(0, k, step);
    }
    assert(k * step <= ((rs.len() - 1) / step) * step) by {
        lemma_mul_inequality(k, (rs.len() - 1) / step, step);
    }
    assert(((rs.len() - 1) / step) * step <= rs.len() - 1) by {
        lemma_fundamental_div_mod(rs.len() - 1, step);
        assert(0 <= (rs.len() - 1) % step) by {
            vstd::arithmetic::div_mod::lemma_mod_bound(rs.len() - 1, step);
        }
    }
}

/// A mode is usable when its window holds at least two samples spanning at
/// least the mode's minimum data duration.
pub open spec fn usable_spec(rs: Seq<Rec>, mode: ViewMode) -> bool {
    let f = windowed_spec(rs, mode);
    f.len() >= 2 && f.last().time - f[0].time >= min_data_secs_of(mode)
}

/// The mode actually rendered: the requested one, widened step by step while
/// it is not usable, stopping at the first usable mode or at `Full`.
pub open spec fn effective_mode_spec(rs: Seq<Rec>, mode: ViewMode) -> ViewMode
    decreases 4 - rank(mode),
{
    if rs.len() == 0 {
        mode
    } else if usable_spec(rs, mode) {
        mode
    } else {
        match expanded(mode) {
            Some(m) => effective_mode_spec(rs, m),
            None => mode,
        }
    }
}

/// The effective mode is never smaller than the requested one under the mode
/// order, and equals it whenever the requested window is already usable.
pub proof fn lemma_effective_never_smaller(rs: Seq<Rec>, mode: ViewMode)
    ensures
        rank(effective_mode_spec(rs, mode)) >= rank(mode),
        rs.len() > 0 && usable_spec(rs, mode) ==> effective_mode_spec(rs, mode) == mode,
    decreases 4 - rank(mode),
{
    if rs.len() == 0 {
    } else if usable_spec(rs, mode) {
    } else {
        match expanded(mode) {
            Some(m) => lemma_effective_never_smaller(rs, m),
            None => {},
        }
    }
}

/// The label shown for the view mode: the requested mode's name, or
/// `requested→effective` when adaptive widening changed it.
pub open spec fn view_mode_label_spec(rs: Seq<Rec>, req: ViewMode) -> Seq<char> {
    let eff = effective_mode_spec(rs, req);
    if eff == req {
        label_of(req)
    } else {
        label_of(req) + "→"@ + label_of(eff)
    }
}

/// Smallest power among the samples (the sequence must not be empty).
pub open spec fn min_power_spec(rs: Seq<Rec>) -> int
    decreases rs.len(),
{
    if rs.len() <= 1 {
        rs[0].power
    } else {
        let m = min_power_spec(rs.drop_last());
        if rs.last().power < m {
            rs.last().power
        } else {
            m
        }
    }
}

/// Largest power among the samples (the sequence must not be empty).
pub open spec fn max_power_spec(rs: Seq<Rec>) -> int
    decreases rs.len(),
{
    if rs.len() <= 1 {
        rs[0].power
    } else {
        let m = max_power_spec(rs.drop_last());
        if rs.last().power > m {
            rs.last().power
        } else {
            m
        }
    }
}

/// The power axis of the filtered samples: their minimum and maximum with a
/// tenth of the spread as padding, the lower end floored at zero; a fixed
/// `(0, 20000)` milliwatts when there are no samples.
pub open spec fn power_range_spec(f: Seq<Rec>) -> (int, int) {
    if f.len() == 0 {
        (0, 20_000)
    } else {
        let mn = min_power_spec(f);
        let mx = max_power_spec(f);
        let pad = (mx - mn) / 10;
        ((if mn - pad > 0 {
            mn - pad
        } else {
            0
        }), mx + pad)
    }
}

impl App {
    /// The samples the given mode shows, cloned out of the store in order.
    pub fn filtered_records_for_mode(&self, mode: ViewMode) -> (r: Vec<BatteryRecord>)
        requires
            self.wf(),
        ensures
            r.deep_view() == windowed_spec(self.records.deep_view(), mode),
            rows_wf(r.deep_view()),
    {
        let ghost rs = self.records.deep_view();
        proof {
            lemma_windowed_wf(rs, mode);
        }
        let n = self.records.len();
        let mut out: Vec<BatteryRecord> = Vec::new();
        if n == 0 {
            proof {
                assert(out.deep_view() =~= windowed_spec(rs, mode));
            }
            return out;
        }
        match mode.window_secs() {
            Some(w) => {
                proof {
                    assert(rs.last() == self.records@[n - 1]@);
                    assert(crate::record::rec_wf(rs.last()));
                }
                let cutoff = self.records[n - 1].time - w;
                let ghost c = cutoff as int;
                proof {
                    reveal(Seq::filter);
                    assert(out.deep_view() =~= window_filtered(rs.take(0), c));
                }
                let mut i: usize = 0;
                while i < n
                    invariant
                        0 <= i <= n,
                        n == self.records@.len(),
                        rs == self.records.deep_view(),
                        rs.len() == n,
                        rows_wf(rs),
                        cutoff as int == c,
                        windowed_spec(rs, mode) == window_filtered(rs, c),
                        out.deep_view() == window_filtered(rs.take(i as int), c),
                    decreases n - i,
                {
                    proof {
                        assert(rs[i as int] == self.records@[i as int]@);
                    }
                    let ghost before = out.deep_view();
                    let keep = self.records[i].time >= cutoff;
                    if keep {
                        let row = self.records[i].clone();
                        out.push(row);
                        proof {
                            assert(out.deep_view() =~= before.push(rs[i as int]));
                        }
                    }
                    proof {
                        reveal(Seq::filter);
                        assert(rs.take(i + 1).drop_last() =~= rs.take(i as int));
                        assert(rs.take(i + 1).last() == rs[i as int]);
                        assert(out.deep_view() =~= window_filtered(rs.take(i + 1), c));
                    }
                    i = i + 1;
                }
                proof {
                    assert(rs.take(n as int) =~= rs);
                }
                out
            },
            None => {
                if n <= MAX_FULL_POINTS {
                    let mut i: usize = 0;
                    while i < n
                        invariant
                            0 <= i <= n,
                            n == self.records@.len(),
                            rs == self.records.deep_view(),
                            rs.len() == n,
                            out.deep_view() == rs.take(i as int),
                        decreases n - i,
                    {
                        proof {
                            assert(rs[i as int] == self.records@[i as int]@);
                        }
                        let ghost before = out.deep_view();
                        let row = self.records[i].clone();
                        out.push(row);
                        proof {
                            assert(out.deep_view() =~= before.push(rs[i as int]));
                            assert(out.deep_view() =~= rs.take(i + 1));
                        }
                        i = i + 1;
                    }
                    proof {
                        assert(rs.take(n as int) =~= rs);
                    }
                    out
                } else {
                    let step = n / MAX_FULL_POINTS;
                    let ghost sint = step as int;
                    proof {
                        lemma_div_is_ordered(
                            MAX_FULL_POINTS as int,
                            rs.len() as int,
                            MAX_FULL_POINTS as int,
                        );
                        vstd::arithmetic::div_mod::lemma_div_by_self(MAX_FULL_POINTS as int);
                    }
                    let mut idx: usize = 0;
                    while idx < n
                        invariant
                            n == self.records@.len(),
                            rs == self.records.deep_view(),
                            rs.len() == n,
                            n > MAX_FULL_POINTS,
                            n <= crate::record::MAX_RECORDS,
                            1 <= step,
                            sint == step as int,
                            sint == rs.len() as int / MAX_FULL_POINTS as int,
                            idx == out@.len() * sint,
                            forall|j: int|
                                0 <= j < out@.len() ==> #[trigger] out.deep_view()[j] == rs[j
                                    * sint],
                            out@.len() * sint < n + sint,
                        decreases n + sint - idx,
                    {
                        proof {
                            assert(rs[idx as int] == self.records@[idx as int]@);
                        }
                        let ghost before = out.deep_view();
                        let ghost m = out@.len() as int;
                        let row = self.records[idx].clone();
                        out.push(row);
                        proof {
                            assert(out.deep_view() =~= before.push(rs[idx as int]));
                            assert((m + 1) * sint == m * sint + sint)
                                by (nonlinear_arith);
                        }
                        idx = idx + step;
                    }
                    let ghost m = out@.len() as int;
                    proof {
                        let count = ((rs.len() - 1) / sint) + 1;
                        assert(m >= 1) by {
                            if m == 0 {
                                assert(idx == 0);
                            }
                        }
                        assert(m - 1 <= (n - 1) / sint) by {
                            assert((m - 1) * sint < n) by {
                                assert(m * sint == (m - 1) * sint + sint) by (nonlinear_arith);
                            }
                            lemma_div_multiples_vanish(m - 1, sint);
                            lemma_div_is_ordered((m - 1) * sint, n - 1, sint);
                        }
                        assert(m > (n - 1) / sint) by {
                            if m <= (n - 1) / sint {
                                lemma_mul_inequality(m, (n - 1) / sint, sint);
                                lemma_fundamental_div_mod(n - 1, sint);
                                vstd::arithmetic::div_mod::lemma_mod_bound(n - 1, sint);
                                assert(((n - 1) / sint) * sint <= n - 1);
                                assert(idx < n);
                            }
                        }
                        assert(m == count);
                    }
                    proof {
                        assert(rs[n - 1] == self.records@[n - 1]@);
                    }
                    let last_row = self.records[n - 1].clone();
                    let ghost before = out.deep_view();
                    out.push(last_row);
                    proof {
                        assert(out.deep_view() =~= before.push(rs[n - 1]));
                        lemma_full_sampled_indices(rs);
                        assert(out.deep_view() =~= full_sampled(rs));
                    }
                    out
                }
            },
        }
    }

    /// The samples the effective mode shows.
    pub fn filtered_records(&self) -> (r: Vec<BatteryRecord>)
        requires
            self.wf(),
        ensures
            r.deep_view() == windowed_spec(
                self.records.deep_view(),
                effective_mode_spec(self.records.deep_view(), self.view_mode),
            ),
            rows_wf(r.deep_view()),
    {
        let eff = self.effective_view_mode();
        self.filtered_records_for_mode(eff)
    }

    /// Widens from `mode` while the window is not usable.
    fn effective_from(&self, mode: ViewMode) -> (r: ViewMode)
        requires
            self.wf(),
        ensures
            r == effective_mode_spec(self.records.deep_view(), mode),
        decreases 4 - rank(mode),
    {
        let ghost rs = self.records.deep_view();
        if self.records.len() == 0 {
            return mode;
        }
        let filtered = self.filtered_records_for_mode(mode);
        let flen = filtered.len();
        let usable_now: bool = if flen < 2 {
            false
        } else {
            proof {
                assert(filtered.deep_view()[0] == filtered@[0]@);
                assert(filtered.deep_view()[flen - 1] == filtered@[flen - 1]@);
            }
            let first_time = filtered[0].time;
            let last_time = filtered[flen - 1].time;
            last_time - first_time >= mode.min_data_secs()
        };
        proof {
            assert(usable_now == usable_spec(rs, mode));
        }
        if usable_now {
            mode
        } else {
            match mode.expand() {
                Some(m) => self.effective_from(m),
                None => mode,
            }
        }
    }

    /// The mode actually rendered: the requested one, adaptively widened
    /// until usable. Never smaller than the requested mode; equal to it when
    /// its window is already usable.
    pub fn effective_view_mode(&self) -> (r: ViewMode)
        requires
            self.wf(),
        ensures
            r == effective_mode_spec(self.records.deep_view(), self.view_mode),
            rank(r) >= rank(self.view_mode),
            self.records@.len() > 0 && usable_spec(self.records.deep_view(), self.view_mode)
                ==> r == self.view_mode,
    {
        proof {
            lemma_effective_never_smaller(self.records.deep_view(), self.view_mode);
        }
        self.effective_from(self.view_mode)
    }

    /// The view-mode label: the requested mode's name, or
    /// `requested→effective` when widening changed it.
    pub fn view_mode_label(&self) -> (r: String)
        requires
            self.wf(),
        ensures
            r@ == view_mode_label_spec(self.records.deep_view(), self.view_mode),
    {
        let ghost rs = self.records.deep_view();
        let eff = self.effective_view_mode();
        if eff == self.view_mode {
            self.view_mode.label().to_owned()
        } else {
            let mut s = self.view_mode.label().to_owned();
            s.append("→");
            s.append(eff.label());
            proof {
                assert(s@ =~= view_mode_label_spec(rs, self.view_mode));
            }
            s
        }
    }

    /// The power axis of the effective window's samples: minimum and maximum
    /// power with a tenth of the spread as padding, floored at zero below;
    /// `(0, 20000)` milliwatts when the window is empty.
    pub fn power_range(&self) -> (r: (i64, i64))
        requires
            self.wf(),
        ensures
            ({
                let f = windowed_spec(
                    self.records.deep_view(),
                    effective_mode_spec(self.records.deep_view(), self.view_mode),
                );
                r.0 as int == power_range_spec(f).0 && r.1 as int == power_range_spec(f).1
            }),
    {
        let filtered = self.filtered_records();
        let ghost f = filtered.deep_view();
        let n = filtered.len();
        if n == 0 {
            return (0, 20_000);
        }
        proof {
            assert(f[0] == filtered@[0]@);
        }
        let mut mn = filtered[0].power;
        let mut mx = filtered[0].power;
        let mut i: usize = 1;
        proof {
            assert(f.take(1)[0] == f[0]);
            assert(mn as int == min_power_spec(f.take(1)));
            assert(mx as int == max_power_spec(f.take(1)));
        }
        while i < n
            invariant
                1 <= i <= n,
                n == filtered@.len(),
                f == filtered.deep_view(),
                f.len() == n,
                rows_wf(f),
                mn as int == min_power_spec(f.take(i as int)),
                mx as int == max_power_spec(f.take(i as int)),
                -crate::record::MAX_POWER_MILLIWATTS <= mn <= mx
                    <= crate::record::MAX_POWER_MILLIWATTS,
            decreases n - i,
        {
            proof {
                assert(f[i as int] == filtered@[i as int]@);
                assert(crate::record::rec_wf(f[i as int]));
                assert(f.take(i + 1).drop_last() =~= f.take(i as int));
                assert(f.take(i + 1).last() == f[i as int]);
            }
            let p = filtered[i].power;
            if p < mn {
                mn = p;
            }
            if p > mx {
                mx = p;
            }
            i = i + 1;
        }
        proof {
            assert(f.take(n as int) =~= f);
        }
        let pad = (mx - mn) / 10;
        let lo = if mn - pad > 0 {
            mn - pad
        } else {
            0
        };
        (lo, mx + pad)
    }
}

/// The stepped indices of the down-sampled `Full` view.
proof fn lemma_full_sampled_indices(rs: Seq<Rec>)
    requires
        rs.len() > MAX_FULL_POINTS,
    ensures
        ({
            let step = rs.len() as int / MAX_FULL_POINTS as int;
            let count = ((rs.len() - 1) / step) + 1;
            &&& full_sampled(rs).len() == count + 1
            &&& full_sampled(rs)[count as int] == rs.last()
            &&& forall|k: int|
                0 <= k < count ==> #[trigger] full_sampled(rs)[k] == rs[k * step]
        }),
{
    let step = rs.len() as int / MAX_FULL_POINTS as int;
    let count = ((rs.len() - 1) / step) + 1;
    assert(step >= 1) by {
        lemma_div_is_ordered(MAX_FULL_POINTS as int, rs.len() as int, MAX_FULL_POINTS as int);
        vstd::arithmetic::div_mod::lemma_div_by_self(MAX_FULL_POINTS as int);
    }
    assert(count >= 1) by {
        vstd::arithmetic::div_mod::lemma_div_pos_is_pos(rs.len() - 1, step);
    }
}

} // verus!

//! The viewer's state: the sample store for the selected date, the chosen
//! view mode, and the interface flags.

use vstd::prelude::*;

use chrono::Datelike;

use crate::date::Date;
use crate::date::date_wf;
use crate::date::dates_wf;
use crate::record::BatteryRecord;
use crate::record::MAX_RECORDS;
use crate::record::Rec;
use crate::record::rec_wf;
use crate::record::rows_wf;

verus! {

/// Viewer state. `records` is the ordered sample sequence of the selected
/// date; `last_read_count` counts how many rows have been ingested from the
/// rolling file, so a refresh appends only what is new.
pub struct App {
    pub records: Vec<BatteryRecord>,
    pub current_date: Date,
    pub available_dates: Vec<Date>,
    pub last_read_count: usize,
    pub should_quit: bool,
    pub view_mode: crate::view::ViewMode,
    pub show_service_warning: bool,
    pub show_about: bool,
}

/// The rows of the rolling file not yet ingested, given how many were.
pub open spec fn appended_rows(lrc: int, rolling: Seq<Rec>) -> Seq<Rec> {
    if lrc < rolling.len() {
        rolling.skip(lrc)
    } else {
        Seq::empty()
    }
}

/// The ingested-row count after a refresh that saw `rolling_len` rows.
pub open spec fn refreshed_count(lrc: int, rolling_len: int) -> int {
    if rolling_len > lrc {
        rolling_len
    } else {
        lrc
    }
}

/// A refresh may append the new tail of the rolling file: the rows must be
/// well formed, continue the store's time order, and fit.
pub open spec fn refresh_join_ok(recs: Seq<Rec>, lrc: int, rolling: Seq<Rec>) -> bool {
    &&& rows_wf(rolling)
    &&& recs.len() + appended_rows(lrc, rolling).len() <= MAX_RECORDS
    &&& (recs.len() > 0 && lrc < rolling.len() ==> recs.last().time <= rolling[lrc].time)
}

impl App {
    /// The state's invariant: samples well formed and in time order, and the
    /// dates well formed.
    pub open spec fn wf(&self) -> bool {
        &&& rows_wf(self.records.deep_view())
        &&& self.records@.len() <= MAX_RECORDS
        &&& date_wf(self.current_date)
        &&& dates_wf(self.available_dates@)
        &&& self.available_dates@.len() <= 100_000_000
    }

    /// A fresh viewer on `initial_date`, holding the concatenation of the
    /// prior date's archived rows and the rows of the date's own file, in
    /// that order.
    pub fn new(
        initial_date: Date,
        available_dates: Vec<Date>,
        prior_rows: Vec<BatteryRecord>,
        live_rows: Vec<BatteryRecord>,
        service_active: bool,
    ) -> (r: App)
        requires
            date_wf(initial_date),
            dates_wf(available_dates@),
            available_dates@.len() <= 100_000_000,
            rows_wf(prior_rows.deep_view() + live_rows.deep_view()),
            prior_rows@.len() + live_rows@.len() <= MAX_RECORDS,
        ensures
            r.wf(),
            r.records.deep_view() == prior_rows.deep_view() + live_rows.deep_view(),
            r.last_read_count == live_rows@.len(),
            r.current_date == initial_date,
            r.available_dates == available_dates,
            r.view_mode == crate::view::ViewMode::Recent30m,
            !r.should_quit,
            !r.show_about,
            r.show_service_warning == !service_active,
    {
        let mut app = App {
            records: Vec::new(),
            current_date: initial_date,
            available_dates,
            last_read_count: 0,
            should_quit: false,
            view_mode: crate::view::ViewMode::Recent30m,
            show_service_warning: !service_active,
            show_about: false,
        };
        app.load_date_data(prior_rows, live_rows);
        app
    }

    /// Replaces the store with the rows of the (newly) selected date: the
    /// prior date's archived rows, then the date's own rows.
    pub fn load_date_data(&mut self, prior_rows: Vec<BatteryRecord>, live_rows: Vec<BatteryRecord>)
        requires
            date_wf(old(self).current_date),
            dates_wf(old(self).available_dates@),
            old(self).available_dates@.len() <= 100_000_000,
            rows_wf(prior_rows.deep_view() + live_rows.deep_view()),
            prior_rows@.len() + live_rows@.len() <= MAX_RECORDS,
        ensures
            final(self).wf(),
            final(self).records.deep_view() == prior_rows.deep_view() + live_rows.deep_view(),
            final(self).last_read_count == live_rows@.len(),
            final(self).current_date == old(self).current_date,
            final(self).available_dates == old(self).available_dates,
            final(self).view_mode == old(self).view_mode,
            final(self).should_quit == old(self).should_quit,
            final(self).show_service_warning == old(self).show_service_warning,
            final(self).show_about == old(self).show_about,
    {
        let ghost prior_model = prior_rows.deep_view();
        let ghost live_model = live_rows.deep_view();
        let live_count = live_rows.len();
        let mut records = prior_rows;
        let mut live = live_rows;
        records.append(&mut live);
        proof {
            assert(records.deep_view() =~= prior_model + live_model);
        }
        self.records = records;
        self.last_read_count = live_count;
    }

    /// Whether a refresh with these rolling-file rows is admissible now.
    pub fn can_refresh(&self, today: Date, rolling_rows: &Vec<BatteryRecord>) -> (r: bool)
        requires
            self.wf(),
        ensures
            r == (self.current_date == today ==> refresh_join_ok(
                self.records.deep_view(),
                self.last_read_count as int,
                rolling_rows.deep_view(),
            )),
    {
        if !(self.current_date == today) {
            return true;
        }
        let ghost recs = self.records.deep_view();
        let ghost rolling = rolling_rows.deep_view();
        if !crate::record::rows_ok(rolling_rows) {
            return false;
        }
        let n = self.records.len();
        let m = rolling_rows.len();
        let appended: usize = if self.last_read_count < m {
            m - self.last_read_count
        } else {
            0
        };
        if appended > MAX_RECORDS - n {
            return false;
        }
        if n > 0 && self.last_read_count < m {
            proof {
                assert(recs[n - 1] == self.records@[n - 1]@);
                assert(rolling[self.last_read_count as int]
                    == rolling_rows@[self.last_read_count as int]@);
            }
            if !(self.records[n - 1].time <= rolling_rows[self.last_read_count].time) {
                return false;
            }
        }
        true
    }

    /// Re-reads the day's rolling rows: a no-op unless the store's date is
    /// `today`; otherwise replaces the available dates and appends exactly
    /// the rolling rows beyond the ingested count, advancing that count by
    /// the number appended.
    pub fn refresh_data(
        &mut self,
        today: Date,
        dates: Vec<Date>,
        rolling_rows: Vec<BatteryRecord>,
    )
        requires
            old(self).wf(),
            dates_wf(dates@),
            dates@.len() <= 100_000_000,
            old(self).current_date == today ==> refresh_join_ok(
                old(self).records.deep_view(),
                old(self).last_read_count as int,
                rolling_rows.deep_view(),
            ),
        ensures
            final(self).wf(),
            old(self).current_date != today ==> *final(self) == *old(self),
            old(self).current_date == today ==> {
                &&& final(self).records.deep_view() == old(self).records.deep_view()
                    + appended_rows(
                    old(self).last_read_count as int,
                    rolling_rows.deep_view(),
                )
                &&& final(self).last_read_count as int == refreshed_count(
                    old(self).last_read_count as int,
                    rolling_rows.deep_view().len() as int,
                )
                &&& final(self).available_dates == dates
                &&& final(self).current_date == old(self).current_date
                &&& final(self).view_mode == old(self).view_mode
                &&& final(self).should_quit == old(self).should_quit
                &&& final(self).show_service_warning == old(self).show_service_warning
                &&& final(self).show_about == old(self).show_about
            },
    {
        if !(self.current_date == today) {
            return ;
        }
        let ghost recs = self.records.deep_view();
        let ghost rolling = rolling_rows.deep_view();
        let ghost lrc = self.last_read_count as int;
        self.available_dates = dates;
        let m = rolling_rows.len();
        let mut i = self.last_read_count;
        if i >= m {
            proof {
                assert(self.records.deep_view() =~= recs + appended_rows(lrc, rolling));
            }
            return ;
        }
        proof {
            assert(self.records.deep_view() =~= recs + rolling.subrange(lrc, i as int));
        }
        while i < m
            invariant
                0 <= lrc <= i <= m,
                m == rolling_rows@.len(),
                rolling == rolling_rows.deep_view(),
                rolling.len() == m,
                recs.len() + (m - lrc) <= MAX_RECORDS,
                rows_wf(rolling),
                rows_wf(recs),
                lrc < m,
                recs.len() > 0 ==> recs.last().time <= rolling[lrc].time,
                self.records.deep_view() == recs + rolling.subrange(lrc, i as int),
                self.current_date == old(self).current_date,
                self.available_dates == dates,
                self.last_read_count == old(self).last_read_count,
                self.view_mode == old(self).view_mode,
                self.should_quit == old(self).should_quit,
                self.show_service_warning == old(self).show_service_warning,
                self.show_about == old(self).show_about,
            decreases m - i,
        {
            let ghost before = self.records.deep_view();
            proof {
                assert(rolling[i as int] == rolling_rows@[i as int]@);
            }
            let row = rolling_rows[i].clone();
            self.records.push(row);
            proof {
                assert(self.records.deep_view() =~= before.push(rolling[i as int]));
                assert(rolling.subrange(lrc, i + 1) =~= rolling.subrange(lrc, i as int).push(
                    rolling[i as int],
                ));
                assert(self.records.deep_view() =~= recs + rolling.subrange(lrc, i + 1));
            }
            i = i + 1;
        }
        self.last_read_count = m;
        proof {
            assert(rolling.subrange(lrc, m as int) =~= appended_rows(lrc, rolling));
            assert(self.records.deep_view() =~= recs + appended_rows(lrc, rolling));
            assert(rows_wf(self.records.deep_view())) by {
                lemma_join_rows_wf(recs, rolling, lrc);
                assert(rows_wf(recs + appended_rows(lrc, rolling)));
            }
        }
    }

    /// Steps through the available dates: positive `delta` moves toward
    /// newer dates (lower indices, the list being newest first), negative
    /// toward older ones, clamped at both ends. Returns whether the selected
    /// date changed; the caller then loads that date's rows.
    pub fn navigate_date(&mut self, delta: i32) -> (changed: bool)
        requires
            old(self).wf(),
            -1_000_000 <= delta <= 1_000_000,
        ensures
            final(self).wf(),
            final(self).records == old(self).records,
            final(self).available_dates == old(self).available_dates,
            final(self).last_read_count == old(self).last_read_count,
            final(self).should_quit == old(self).should_quit,
            final(self).view_mode == old(self).view_mode,
            final(self).show_service_warning == old(self).show_service_warning,
            final(self).show_about == old(self).show_about,
            (forall|k: int|
                0 <= k < old(self).available_dates@.len() ==> old(self).available_dates@[k]
                    != old(self).current_date) ==> (!changed && final(self).current_date == old(
                self,
            ).current_date),
            forall|idx: int|
                is_first_index(old(self).available_dates@, old(self).current_date, idx) ==> {
                    let ni = nav_index(idx, delta as int, old(self).available_dates@.len() as int);
                    &&& changed == (ni != idx)
                    &&& final(self).current_date == (if ni != idx {
                        old(self).available_dates@[ni]
                    } else {
                        old(self).current_date
                    })
                },
    {
        let pos = position_of(&self.available_dates, self.current_date);
        match pos {
            None => false,
            Some(idx) => {
                let len = self.available_dates.len();
                let new_idx: usize = if delta > 0 {
                    let step = delta as usize;
                    if idx >= step {
                        idx - step
                    } else {
                        0
                    }
                } else {
                    let step = (-delta) as usize;
                    let t = idx + step;
                    if t < len - 1 {
                        t
                    } else {
                        len - 1
                    }
                };
                if new_idx != idx {
                    self.current_date = self.available_dates[new_idx];
                    true
                } else {
                    false
                }
            },
        }
    }

    /// Flips the view mode to its cyclic successor.
    pub fn toggle_view_mode(&mut self)
        ensures
            final(self).view_mode == crate::view::toggled(old(self).view_mode),
            final(self).records == old(self).records,
            final(self).current_date == old(self).current_date,
            final(self).available_dates == old(self).available_dates,
            final(self).last_read_count == old(self).last_read_count,
            final(self).should_quit == old(self).should_quit,
            final(self).show_service_warning == old(self).show_service_warning,
            final(self).show_about == old(self).show_about,
    {
        self.view_mode = self.view_mode.toggle();
    }

    /// Clears the collector-not-running warning.
    pub fn dismiss_warning(&mut self)
        ensures
            !final(self).show_service_warning,
            final(self).records == old(self).records,
            final(self).current_date == old(self).current_date,
            final(self).available_dates == old(self).available_dates,
            final(self).last_read_count == old(self).last_read_count,
            final(self).should_quit == old(self).should_quit,
            final(self).view_mode == old(self).view_mode,
            final(self).show_about == old(self).show_about,
    {
        self.show_service_warning = false;
    }

    /// Shows or hides the about panel.
    pub fn toggle_about(&mut self)
        ensures
            final(self).show_about == !old(self).show_about,
            final(self).records == old(self).records,
            final(self).current_date == old(self).current_date,
            final(self).available_dates == old(self).available_dates,
            final(self).last_read_count == old(self).last_read_count,
            final(self).should_quit == old(self).should_quit,
            final(self).view_mode == old(self).view_mode,
            final(self).show_service_warning == old(self).show_service_warning,
    {
        self.show_about = !self.show_about;
    }

    /// Hides the about panel.
    pub fn dismiss_about(&mut self)
        ensures
            !final(self).show_about,
            final(self).records == old(self).records,
            final(self).current_date == old(self).current_date,
            final(self).available_dates == old(self).available_dates,
            final(self).last_read_count == old(self).last_read_count,
            final(self).should_quit == old(self).should_quit,
            final(self).view_mode == old(self).view_mode,
            final(self).show_service_warning == old(self).show_service_warning,
    {
        self.show_about = false;
    }

    /// Whether the store's date is the machine's current local date. The
    /// result depends on the clock, so nothing more is promised of it.
    pub fn is_today(&self) -> bool {
        match local_today() {
            Some(d) => d == self.current_date,
            None => false,
        }
    }

    /// Capacity of the latest sample, in hundredths of a percent.
    pub fn latest_capacity(&self) -> (r: Option<i64>)
        ensures
            self.records@.len() == 0 ==> r is None,
            self.records@.len() > 0 ==> r == Some(
                self.records.deep_view().last().capacity as i64,
            ),
    {
        let n = self.records.len();
        if n == 0 {
            None
        } else {
            proof {
                assert(self.records.deep_view()[n - 1] == self.records@[n - 1]@);
            }
            Some(self.records[n - 1].capacity)
        }
    }

    /// Power draw of the latest sample, in milliwatts.
    pub fn latest_power(&self) -> (r: Option<i64>)
        ensures
            self.records@.len() == 0 ==> r is None,
            self.records@.len() > 0 ==> r == Some(self.records.deep_view().last().power as i64),
    {
        let n = self.records.len();
        if n == 0 {
            None
        } else {
            proof {
                assert(self.records.deep_view()[n - 1] == self.records@[n - 1]@);
            }
            Some(self.records[n - 1].power)
        }
    }

    /// Status text of the latest sample.
    pub fn latest_status(&self) -> (r: Option<&str>)
        ensures
            self.records@.len() == 0 ==> r is None,
            self.records@.len() > 0 ==> (r matches Some(s) && s@
                == self.records.deep_view().last().status),
    {
        let n = self.records.len();
        if n == 0 {
            None
        } else {
            proof {
                assert(self.records.deep_view()[n - 1] == self.records@[n - 1]@);
            }
            Some(self.records[n - 1].status.as_str())
        }
    }
}

/// `idx` is the first position of `d` in `s`.
pub open spec fn is_first_index(s: Seq<Date>, d: Date, idx: int) -> bool {
    &&& 0 <= idx < s.len()
    &&& s[idx] == d
    &&& forall|k: int| 0 <= k < idx ==> s[k] != d
}

/// The index a navigation step lands on: `delta` positions toward the front
/// when positive, toward the back when negative, clamped at both ends.
pub open spec fn nav_index(idx: int, delta: int, len: int) -> int {
    if delta > 0 {
        if idx >= delta {
            idx - delta
        } else {
            0
        }
    } else {
        if idx + (-delta) < len - 1 {
            idx + (-delta)
        } else {
            len - 1
        }
    }
}

/// First position of a date in a list, scanning from the front.
fn position_of(v: &Vec<Date>, d: Date) -> (r: Option<usize>)
    ensures
        r matches Some(ix) ==> is_first_index(v@, d, ix as int),
        r is None ==> forall|k: int| 0 <= k < v@.len() ==> v@[k] != d,
{
    let n = v.len();
    let mut i: usize = 0;
    while i < n
        invariant
            0 <= i <= n,
            n == v@.len(),
            forall|k: int| 0 <= k < i ==> v@[k] != d,
        decreases n - i,
    {
        if v[i] == d {
            return Some(i);
        }
        i = i + 1;
    }
    None
}

/// Well-formed row sequences stay well formed under an order-respecting join.
proof fn lemma_join_rows_wf(recs: Seq<Rec>, rolling: Seq<Rec>, lrc: int)
    requires
        rows_wf(recs),
        rows_wf(rolling),
        0 <= lrc,
        recs.len() > 0 && lrc < rolling.len() ==> recs.last().time <= rolling[lrc].time,
    ensures
        rows_wf(recs + appended_rows(lrc, rolling)),
{
    let tail = appended_rows(lrc, rolling);
    let joined = recs + tail;
    assert forall|i: int| 0 <= i < joined.len() implies rec_wf(#[trigger] joined[i]) by {
        if i < recs.len() {
            assert(joined[i] == recs[i]);
        } else {
            assert(joined[i] == rolling[lrc + (i - recs.len())]);
        }
    }
    assert forall|i: int, j: int| 0 <= i < j < joined.len() implies #[trigger] joined[i].time
        <= #[trigger] joined[j].time by {
        if j < recs.len() {
        } else if i < recs.len() {
            assert(joined[i] == recs[i]);
            assert(joined[j] == rolling[lrc + (j - recs.len())]);
            assert(recs[i].time <= recs.last().time) by {
                if i < recs.len() - 1 {
                    assert(recs[i].time <= recs[recs.len() - 1].time);
                }
            }
            assert(recs.last().time <= rolling[lrc].time);
            assert(rolling[lrc].time <= rolling[lrc + (j - recs.len())].time) by {
                if j - recs.len() > 0 {
                    assert(rolling[lrc].time <= rolling[lrc + (j - recs.len())].time);
                }
            }
        } else {
            assert(joined[i] == rolling[lrc + (i - recs.len())]);
            assert(joined[j] == rolling[lrc + (j - recs.len())]);
        }
    }
}

/// Refreshing again with the same rolling rows appends nothing: after one
/// refresh the ingested count has caught up, so the new tail is empty.
pub proof fn lemma_refresh_twice_appends_nothing(recs: Seq<Rec>, lrc: int, rolling: Seq<Rec>)
    requires
        0 <= lrc,
    ensures
        appended_rows(refreshed_count(lrc, rolling.len() as int), rolling).len() == 0,
        (recs + appended_rows(lrc, rolling)) + appended_rows(
            refreshed_count(lrc, rolling.len() as int),
            rolling,
        ) == recs + appended_rows(lrc, rolling),
{
    let once = recs + appended_rows(lrc, rolling);
    assert(once + appended_rows(refreshed_count(lrc, rolling.len() as int), rolling) =~= once);
}

/// Relies on `chrono::Local::now` and `chrono::NaiveDate`: the machine's
/// current local date as year, month and day; chrono documents the month as
/// 1 to 12 and the day as 1 to 31.
#[verifier::external_body]
fn local_today_ymd() -> (r: (i32, u8, u8))
    ensures
        1 <= r.1 <= 12,
        1 <= r.2 <= 31,
{
    let d = chrono::Local::now().date_naive();
    (d.year(), d.month() as u8, d.day() as u8)
}

/// The machine's current local date, when it lies in this library's range
/// of representable dates. The result depends on the clock; only its
/// well-formedness is promised.
pub fn local_today() -> (r: Option<Date>)
    ensures
        r matches Some(d) ==> date_wf(d),
{
    let (y, m, d) = local_today_ymd();
    Date::from_ymd(y, m, d)
}

} // verus!

//! Calendar dates: validity, ordering, parsing and formatting of the
//! `YYYY-MM-DD` form, and the list of dates the dashboard can show.

use vstd::prelude::*;

use crate::text::push_two_digits;
use crate::text::two_digit_chars;

verus! {

/// A calendar date in years 0 through 9999.
#[derive(Debug, Clone, Copy, PartialEq, Eq, Structural)]
pub struct Date {
    pub year: i32,
    pub month: u8,
    pub day: u8,
}

/// Gregorian leap-year rule.
pub open spec fn is_leap_year(y: int) -> bool {
    (y % 4 == 0 && y % 100 != 0) || y % 400 == 0
}

/// Number of days of month `m` in year `y` (months counted from 1).
pub open spec fn days_in_month(y: int, m: int) -> int {
    if m == 2 {
        if is_leap_year(y) {
            29
        } else {
            28
        }
    } else if m == 4 || m == 6 || m == 9 || m == 11 {
        30
    } else {
        31
    }
}

/// A well-formed date: four-digit year and a valid calendar day.
pub open spec fn date_wf(d: Date) -> bool {
    &&& 0 <= d.year <= 9999
    &&& 1 <= d.month <= 12
    &&& 1 <= d.day <= days_in_month(d.year as int, d.month as int)
}

/// Order-preserving key: the decimal number `YYYYMMDD`.
pub open spec fn date_key(d: Date) -> int {
    d.year * 10000 + d.month * 100 + d.day
}

/// Equal keys mean equal dates, for well-formed dates.
pub proof fn lemma_date_key_injective(a: Date, b: Date)
    requires
        date_wf(a),
        date_wf(b),
        date_key(a) == date_key(b),
    ensures
        a == b,
{
    assert(a.year == b.year) by {
        assert((a.year - b.year) * 10000 == b.month * 100 + b.day - (a.month * 100 + a.day));
    }
    assert(a.month == b.month) by {
        assert((a.month - b.month) * 100 == b.day - a.day);
    }
}

impl Date {
    /// Number of days in this date's month.
    pub fn month_len(&self) -> (r: u8)
        requires
            date_wf(*self),
        ensures
            r as int == days_in_month(self.year as int, self.month as int),
    {
        if self.month == 2 {
            let leap = (self.year % 4 == 0 && self.year % 100 != 0) || self.year % 400 == 0;
            if leap {
                29
            } else {
                28
            }
        } else if self.month == 4 || self.month == 6 || self.month == 9 || self.month == 11 {
            30
        } else {
            31
        }
    }

    /// The previous calendar day, or `None` at the first representable date.
    pub fn pred(&self) -> (r: Option<Date>)
        requires
            date_wf(*self),
        ensures
            r == pred_of(*self),
            r matches Some(d) ==> date_wf(d) && date_key(d) < date_key(*self),
    {
        if self.day > 1 {
            Some(Date { year: self.year, month: self.month, day: self.day - 1 })
        } else if self.month > 1 {
            let prev = Date { year: self.year, month: self.month - 1, day: 1 };
            let last = prev.month_len();
            Some(Date { year: self.year, month: self.month - 1, day: last })
        } else if self.year > 0 {
            Some(Date { year: self.year - 1, month: 12, day: 31 })
        } else {
            None
        }
    }

    /// Comparison under the calendar order.
    pub fn key(&self) -> (r: i64)
        requires
            date_wf(*self),
        ensures
            r as int == date_key(*self),
    {
        (self.year as i64) * 10000 + (self.month as i64) * 100 + (self.day as i64)
    }

    /// A date from its parts, when they form a valid calendar date in range.
    pub fn from_ymd(year: i32, month: u8, day: u8) -> (r: Option<Date>)
        ensures
            r matches Some(d) ==> d == (Date { year, month, day }) && date_wf(d),
            r is None <==> !date_wf(Date { year, month, day }),
    {
        if year < 0 || year > 9999 {
            return None;
        }
        if month < 1 || month > 12 {
            return None;
        }
        let probe = Date { year, month, day: 1 };
        let last = probe.month_len();
        if day < 1 || day > last {
            return None;
        }
        Some(Date { year, month, day })
    }
}

/// The previous calendar day, `None` at year 0, January 1st.
pub open spec fn pred_of(d: Date) -> Option<Date> {
    if d.day > 1 {
        Some(Date { year: d.year, month: d.month, day: (d.day - 1) as u8 })
    } else if d.month > 1 {
        Some(
            Date {
                year: d.year,
                month: (d.month - 1) as u8,
                day: days_in_month(d.year as int, d.month - 1) as u8,
            },
        )
    } else if d.year > 0 {
        Some(Date { year: (d.year - 1) as i32, month: 12, day: 31 })
    } else {
        None
    }
}

/// Whether `c` is a decimal digit.
pub open spec fn is_digit(c: char) -> bool {
    '0' <= c <= '9'
}

/// Value of a decimal digit.
pub open spec fn digit_val(c: char) -> int {
    c as int - '0' as int
}

/// The character of a decimal digit value.
pub open spec fn digit_char(v: int) -> char {
    if v == 0 {
        '0'
    } else if v == 1 {
        '1'
    } else if v == 2 {
        '2'
    } else if v == 3 {
        '3'
    } else if v == 4 {
        '4'
    } else if v == 5 {
        '5'
    } else if v == 6 {
        '6'
    } else if v == 7 {
        '7'
    } else if v == 8 {
        '8'
    } else {
        '9'
    }
}

/// The date a ten-character `YYYY-MM-DD` text denotes, if it is well formed.
pub open spec fn parse_date_spec(s: Seq<char>) -> Option<Date> {
    if s.len() == 10 && is_digit(s[0]) && is_digit(s[1]) && is_digit(s[2]) && is_digit(s[3])
        && s[4] == '-' && is_digit(s[5]) && is_digit(s[6]) && s[7] == '-' && is_digit(s[8])
        && is_digit(s[9]) {
        let y = digit_val(s[0]) * 1000 + digit_val(s[1]) * 100 + digit_val(s[2]) * 10 + digit_val(
            s[3],
        );
        let m = digit_val(s[5]) * 10 + digit_val(s[6]);
        let d = digit_val(s[8]) * 10 + digit_val(s[9]);
        if 1 <= m <= 12 && 1 <= d <= days_in_month(y, m) {
            Some(Date { year: y as i32, month: m as u8, day: d as u8 })
        } else {
            None
        }
    } else {
        None
    }
}

/// Value of a decimal digit character, or `None`.
fn digit_of(c: char) -> (r: Option<u8>)
    ensures
        r matches Some(v) ==> is_digit(c) && v as int == digit_val(c) && v < 10,
        r is None ==> !is_digit(c),
{
    if c == '0' {
        Some(0)
    } else if c == '1' {
        Some(1)
    } else if c == '2' {
        Some(2)
    } else if c == '3' {
        Some(3)
    } else if c == '4' {
        Some(4)
    } else if c == '5' {
        Some(5)
    } else if c == '6' {
        Some(6)
    } else if c == '7' {
        Some(7)
    } else if c == '8' {
        Some(8)
    } else if c == '9' {
        Some(9)
    } else {
        proof {
            assert(!is_digit(c));
        }
        None
    }
}

/// Parses a `YYYY-MM-DD` text into a date, rejecting anything else.
pub fn parse_date(s: &str) -> (r: Option<Date>)
    ensures
        r == parse_date_spec(s@),
        r matches Some(d) ==> date_wf(d),
{
    let n = s.unicode_len();
    if n != 10 {
        return None;
    }
    if s.get_char(4) != '-' || s.get_char(7) != '-' {
        return None;
    }
    let y0 = match digit_of(s.get_char(0)) {
        Some(v) => v,
        None => { return None },
    };
    let y1 = match digit_of(s.get_char(1)) {
        Some(v) => v,
        None => { return None },
    };
    let y2 = match digit_of(s.get_char(2)) {
        Some(v) => v,
        None => { return None },
    };
    let y3 = match digit_of(s.get_char(3)) {
        Some(v) => v,
        None => { return None },
    };
    let m0 = match digit_of(s.get_char(5)) {
        Some(v) => v,
        None => { return None },
    };
    let m1 = match digit_of(s.get_char(6)) {
        Some(v) => v,
        None => { return None },
    };
    let d0 = match digit_of(s.get_char(8)) {
        Some(v) => v,
        None => { return None },
    };
    let d1 = match digit_of(s.get_char(9)) {
        Some(v) => v,
        None => { return None },
    };
    let year: i32 = (y0 as i32) * 1000 + (y1 as i32) * 100 + (y2 as i32) * 10 + (y3 as i32);
    let month: u8 = m0 * 10 + m1;
    let day: u8 = d0 * 10 + d1;
    if month < 1 || month > 12 {
        return None;
    }
    let date = Date { year, month, day: 1 };
    let last = date.month_len();
    if day < 1 || day > last {
        return None;
    }
    Some(Date { year, month, day })
}

/// The `YYYY-MM-DD` text of a date.
pub open spec fn date_chars(d: Date) -> Seq<char> {
    two_digit_chars(d.year as int / 100) + two_digit_chars(d.year as int % 100) + seq!['-']
        + two_digit_chars(d.month as int) + seq!['-'] + two_digit_chars(d.day as int)
}

/// Formats a date as `YYYY-MM-DD`.
pub fn date_string(d: &Date) -> (r: String)
    requires
        date_wf(*d),
    ensures
        r@ == date_chars(*d),
{
    proof {
        reveal_strlit("-");
    }
    let mut s = String::new();
    push_two_digits(&mut s, (d.year / 100) as u8);
    push_two_digits(&mut s, (d.year % 100) as u8);
    s.append("-");
    push_two_digits(&mut s, d.month);
    s.append("-");
    push_two_digits(&mut s, d.day);
    proof {
        assert(s@ =~= date_chars(*d));
    }
    s
}

/// `c` reads as the lowercase letter `l`, either exactly or as its ASCII
/// uppercase counterpart.
pub open spec fn lower_matches(c: char, l: char) -> bool {
    c == l || c as int + 32 == l as int
}

/// `s` equals the ASCII-lowercase keyword `kw` up to ASCII case.
pub open spec fn matches_keyword(s: Seq<char>, kw: Seq<char>) -> bool {
    s.len() == kw.len() && forall|i: int| 0 <= i < s.len() ==> lower_matches(s[i], #[trigger] kw[i])
}

/// Whether `c` is `lo` or its uppercase form `up`.
fn char_lower_matches(c: char, lo: char, up: char) -> (r: bool)
    requires
        up as int + 32 == lo as int,
    ensures
        r == lower_matches(c, lo),
{
    c == lo || c == up
}

/// `s` reads `today` up to ASCII case.
fn matches_today(s: &str) -> (r: bool)
    ensures
        r == matches_keyword(s@, "today"@),
{
    proof {
        reveal_strlit("today");
    }
    if s.unicode_len() != 5 {
        return false;
    }
    if !char_lower_matches(s.get_char(0), 't', 'T') {
        proof {
            assert(!lower_matches(s@[0], "today"@[0]));
        }
        return false;
    }
    if !char_lower_matches(s.get_char(1), 'o', 'O') {
        proof {
            assert(!lower_matches(s@[1], "today"@[1]));
        }
        return false;
    }
    if !char_lower_matches(s.get_char(2), 'd', 'D') {
        proof {
            assert(!lower_matches(s@[2], "today"@[2]));
        }
        return false;
    }
    if !char_lower_matches(s.get_char(3), 'a', 'A') {
        proof {
            assert(!lower_matches(s@[3], "today"@[3]));
        }
        return false;
    }
    if !char_lower_matches(s.get_char(4), 'y', 'Y') {
        proof {
            assert(!lower_matches(s@[4], "today"@[4]));
        }
        return false;
    }
    proof {
        assert forall|i: int| 0 <= i < s@.len() implies lower_matches(
            s@[i],
            #[trigger] "today"@[i],
        ) by {
            if i == 0 {
            } else if i == 1 {
            } else if i == 2 {
            } else if i == 3 {
            } else {
                assert(i == 4);
            }
        }
    }
    true
}

/// `s` reads `yesterday` up to ASCII case.
fn matches_yesterday(s: &str) -> (r: bool)
    ensures
        r == matches_keyword(s@, "yesterday"@),
{
    proof {
        reveal_strlit("yesterday");
    }
    if s.unicode_len() != 9 {
        return false;
    }
    if !char_lower_matches(s.get_char(0), 'y', 'Y') {
        proof {
            assert(!lower_matches(s@[0], "yesterday"@[0]));
        }
        return false;
    }
    if !char_lower_matches(s.get_char(1), 'e', 'E') {
        proof {
            assert(!lower_matches(s@[1], "yesterday"@[1]));
        }
        return false;
    }
    if !char_lower_matches(s.get_char(2), 's', 'S') {
        proof {
            assert(!lower_matches(s@[2], "yesterday"@[2]));
        }
        return false;
    }
    if !char_lower_matches(s.get_char(3), 't', 'T') {
        proof {
            assert(!lower_matches(s@[3], "yesterday"@[3]));
        }
        return false;
    }
    if !char_lower_matches(s.get_char(4), 'e', 'E') {
        proof {
            assert(!lower_matches(s@[4], "yesterday"@[4]));
        }
        return false;
    }
    if !char_lower_matches(s.get_char(5), 'r', 'R') {
        proof {
            assert(!lower_matches(s@[5], "yesterday"@[5]));
        }
        return false;
    }
    if !char_lower_matches(s.get_char(6), 'd', 'D') {
        proof {
            assert(!lower_matches(s@[6], "yesterday"@[6]));
        }
        return false;
    }
    if !char_lower_matches(s.get_char(7), 'a', 'A') {
        proof {
            assert(!lower_matches(s@[7], "yesterday"@[7]));
        }
        return false;
    }
    if !char_lower_matches(s.get_char(8), 'y', 'Y') {
        proof {
            assert(!lower_matches(s@[8], "yesterday"@[8]));
        }
        return false;
    }
    proof {
        assert forall|i: int| 0 <= i < s@.len() implies lower_matches(
            s@[i],
            #[trigger] "yesterday"@[i],
        ) by {
            if i == 0 {
            } else if i == 1 {
            } else if i == 2 {
            } else if i == 3 {
            } else if i == 4 {
            } else if i == 5 {
            } else if i == 6 {
            } else if i == 7 {
            } else {
                assert(i == 8);
            }
        }
    }
    true
}

/// The date a user's argument selects: `today`, `yesterday` (both up to ASCII
/// case), or an explicit `YYYY-MM-DD`.
pub open spec fn parse_date_arg_spec(s: Seq<char>, today: Date) -> Option<Date> {
    if matches_keyword(s, "today"@) {
        Some(today)
    } else if matches_keyword(s, "yesterday"@) {
        pred_of(today)
    } else {
        parse_date_spec(s)
    }
}

/// Resolves a user's date argument against today's date.
pub fn parse_date_arg(arg: &str, today: Date) -> (r: Option<Date>)
    requires
        date_wf(today),
    ensures
        r == parse_date_arg_spec(arg@, today),
        r matches Some(d) ==> date_wf(d),
{
    if matches_today(arg) {
        Some(today)
    } else if matches_yesterday(arg) {
        today.pred()
    } else {
        parse_date(arg)
    }
}

/// Every earlier entry is strictly later in the calendar: newest first, and
/// hence no date twice.
pub open spec fn strictly_descending(s: Seq<Date>) -> bool {
    forall|i: int, j: int| 0 <= i < j < s.len() ==> date_key(#[trigger] s[j]) < date_key(
        #[trigger] s[i],
    )
}

/// All dates of the sequence are well formed.
pub open spec fn dates_wf(s: Seq<Date>) -> bool {
    forall|i: int| 0 <= i < s.len() ==> date_wf(#[trigger] s[i])
}

/// Inserts a date into a strictly descending list, keeping it strictly
/// descending; a date already present is left alone.
fn insert_date_desc(v: &mut Vec<Date>, d: Date)
    requires
        strictly_descending(old(v)@),
        dates_wf(old(v)@),
        date_wf(d),
        old(v)@.len() < 100_000_000,
    ensures
        strictly_descending(final(v)@),
        dates_wf(final(v)@),
        final(v)@.len() <= old(v)@.len() + 1,
        forall|x: Date| final(v)@.contains(x) <==> (old(v)@.contains(x) || x == d),
{
    let ghost orig = v@;
    let n = v.len();
    let kd = d.key();
    let mut i: usize = 0;
    loop
        invariant_except_break
            0 <= i <= n,
            n == v@.len(),
            v@ == orig,
            date_wf(d),
            dates_wf(orig),
            strictly_descending(orig),
            kd as int == date_key(d),
            forall|k: int| 0 <= k < i ==> date_key(#[trigger] orig[k]) > date_key(d),
        ensures
            0 <= i <= n,
            n == v@.len(),
            v@ == orig,
            forall|k: int| 0 <= k < i ==> date_key(#[trigger] orig[k]) > date_key(d),
            i < n ==> date_key(orig[i as int]) <= date_key(d),
        decreases n - i,
    {
        if i >= n {
            break ;
        }
        if v[i].key() <= kd {
            break ;
        }
        i = i + 1;
    }
    if i < n && v[i].key() == kd {
        proof {
            lemma_date_key_injective(orig[i as int], d);
            assert(orig.contains(d));
        }
        return ;
    }
    v.insert(i, d);
    proof {
        orig.insert_ensures(i as int, d);
        let after = v@;
        assert forall|k2: int| 0 <= k2 < after.len() implies #[trigger] after[k2] == (if k2 < i {
            orig[k2]
        } else if k2 == i {
            d
        } else {
            orig[k2 - 1]
        }) by {
            if k2 < i {
                assert(orig.insert(i as int, d)[k2] == orig[k2]);
            } else if k2 == i {
                assert(orig.insert(i as int, d)[i as int] == d);
            } else {
                assert(orig.insert(i as int, d)[(k2 - 1) + 1] == orig[k2 - 1]);
            }
        }
        if i < n {
            assert(date_key(orig[i as int]) < date_key(d));
        }
        assert forall|p: int, q: int| 0 <= p < q < after.len() implies date_key(
            #[trigger] after[q],
        ) < date_key(#[trigger] after[p]) by {
            assert(after[p] == (if p < i {
                orig[p]
            } else if p == i {
                d
            } else {
                orig[p - 1]
            }));
            assert(after[q] == (if q < i {
                orig[q]
            } else if q == i {
                d
            } else {
                orig[q - 1]
            }));
        }
        assert forall|x: Date| after.contains(x) <==> (orig.contains(x) || x == d) by {
            if after.contains(x) {
                let ix = choose|ix: int| 0 <= ix < after.len() && after[ix] == x;
                if ix < i {
                    assert(orig[ix] == x);
                    assert(orig.contains(x));
                } else if ix > i {
                    assert(orig[ix - 1] == x);
                    assert(orig.contains(x));
                }
            }
            if orig.contains(x) {
                let ix = choose|ix: int| 0 <= ix < orig.len() && orig[ix] == x;
                if ix < i {
                    assert(after[ix] == x);
                    assert(after.contains(x));
                } else {
                    assert(after[ix + 1] == x);
                    assert(after.contains(x));
                }
            }
            if x == d {
                assert(after[i as int] == x);
                assert(after.contains(x));
            }
        }
    }
}

/// Whether `d` belongs to the available dates: today itself when the rolling
/// file exists, and every date an archive file stem names, except today.
pub open spec fn listed(today: Date, rolling_exists: bool, stems: Seq<Seq<char>>, d: Date) -> bool {
    ||| (d == today && rolling_exists)
    ||| (d != today && exists|i: int|
        0 <= i < stems.len() && parse_date_spec(#[trigger] stems[i]) == Some(d))
}

/// The dates the dashboard can show, newest first, each at most once: today
/// when the rolling file exists, and each date an archive file stem names.
pub fn list_available_dates(today: Date, rolling_exists: bool, stems: &Vec<String>) -> (r: Vec<
    Date,
>)
    requires
        date_wf(today),
        stems@.len() < 100_000_000,
    ensures
        strictly_descending(r@),
        dates_wf(r@),
        forall|d: Date| r@.contains(d) <==> listed(today, rolling_exists, stems.deep_view(), d),
{
    let ghost st = stems.deep_view();
    let mut dates: Vec<Date> = Vec::new();
    if rolling_exists {
        dates.push(today);
        proof {
            assert(dates@[0] == today);
        }
    }
    proof {
        assert forall|d: Date| dates@.contains(d) <==> listed(today, rolling_exists, st.take(0), d)
            by {
            if dates@.contains(d) {
                assert(d == today && rolling_exists);
            }
        }
    }
    let n = stems.len();
    let mut k: usize = 0;
    while k < n
        invariant
            0 <= k <= n,
            n == stems@.len(),
            n < 100_000_000,
            st == stems.deep_view(),
            st.len() == n,
            date_wf(today),
            strictly_descending(dates@),
            dates_wf(dates@),
            dates@.len() <= k + 1,
            forall|d: Date| dates@.contains(d) <==> listed(
                today,
                rolling_exists,
                st.take(k as int),
                d,
            ),
        decreases n - k,
    {
        let ghost before = dates@;
        proof {
            assert(st[k as int] == stems@[k as int]@);
        }
        let parsed = parse_date(stems[k].as_str());
        match parsed {
            Some(d) => {
                if !(d == today) {
                    insert_date_desc(&mut dates, d);
                    proof {
                        assert forall|x: Date| dates@.contains(x) <==> listed(
                            today,
                            rolling_exists,
                            st.take(k + 1),
                            x,
                        ) by {
                            lemma_listed_take_step(today, rolling_exists, st, k as int, x);
                            assert(dates@.contains(x) <==> (before.contains(x) || x == d));
                        }
                    }
                } else {
                    proof {
                        assert forall|x: Date| dates@.contains(x) <==> listed(
                            today,
                            rolling_exists,
                            st.take(k + 1),
                            x,
                        ) by {
                            lemma_listed_take_step(today, rolling_exists, st, k as int, x);
                        }
                    }
                }
            },
            None => {
                proof {
                    assert forall|x: Date| dates@.contains(x) <==> listed(
                        today,
                        rolling_exists,
                        st.take(k + 1),
                        x,
                    ) by {
                        lemma_listed_take_step(today, rolling_exists, st, k as int, x);
                    }
                }
            },
        }
        k = k + 1;
    }
    proof {
        assert(st.take(n as int) =~= st);
    }
    dates
}

/// How membership in the available dates grows when one more stem is read.
proof fn lemma_listed_take_step(
    today: Date,
    rolling_exists: bool,
    stems: Seq<Seq<char>>,
    k: int,
    d: Date,
)
    requires
        0 <= k < stems.len(),
    ensures
        listed(today, rolling_exists, stems.take(k + 1), d) <==> (listed(
            today,
            rolling_exists,
            stems.take(k),
            d,
        ) || (d != today && parse_date_spec(stems[k]) == Some(d))),
{
    let pre = stems.take(k);
    let cur = stems.take(k + 1);
    assert(cur.len() == k + 1);
    assert(forall|i: int| 0 <= i <= k ==> #[trigger] cur[i] == stems[i]);
    assert(forall|i: int| 0 <= i < k ==> #[trigger] pre[i] == stems[i]);
    if listed(today, rolling_exists, cur, d) {
        if d != today && exists|i: int|
            0 <= i < cur.len() && parse_date_spec(#[trigger] cur[i]) == Some(d) {
            let i = choose|i: int|
                0 <= i < cur.len() && parse_date_spec(#[trigger] cur[i]) == Some(d);
            if i < k {
                assert(parse_date_spec(pre[i]) == Some(d));
            } else {
                assert(parse_date_spec(stems[k]) == Some(d));
            }
        }
    }
    if listed(today, rolling_exists, pre, d) {
        if d != today && exists|i: int|
            0 <= i < pre.len() && parse_date_spec(#[trigger] pre[i]) == Some(d) {
            let i = choose|i: int|
                0 <= i < pre.len() && parse_date_spec(#[trigger] pre[i]) == Some(d);
            assert(parse_date_spec(cur[i]) == Some(d));
        }
    }
    if d != today && parse_date_spec(stems[k]) == Some(d) {
        assert(parse_date_spec(cur[k]) == Some(d));
    }
}

} // verus!

//! Building the small pieces of text the dashboard shows: decimal numbers,
//! clock labels, and durations.

use vstd::prelude::*;

verus! {

/// The character of a decimal digit value (0 through 9).
pub open spec fn digit_char(v: int) -> char {
    if v == 0 {
        '0'
    } else if v == 1 {
        '1'
    } else if v == 2 {
        '2'
    } else if v == 3 {
        '3'
    } else if v == 4 {
        '4'
    } else if v == 5 {
        '5'
    } else if v == 6 {
        '6'
    } else if v == 7 {
        '7'
    } else if v == 8 {
        '8'
    } else {
        '9'
    }
}

/// Decimal digits of a non-negative number, most significant first, no
/// leading zeroes (a single `0` for zero).
pub open spec fn decimal_chars(n: int) -> Seq<char>
    decreases n,
{
    if n < 10 {
        seq![digit_char(n)]
    } else {
        decimal_chars(n / 10).push(digit_char(n % 10))
    }
}

/// A value below 100 as exactly two digits, zero padded.
pub open spec fn two_digit_chars(v: int) -> Seq<char> {
    seq![digit_char(v / 10), digit_char(v % 10)]
}

/// The `HH:MM` clock label of a local wall-clock second.
pub open spec fn hhmm_chars(t: int) -> Seq<char> {
    two_digit_chars((t % 86400) / 3600) + seq![':'] + two_digit_chars((t % 3600) / 60)
}

/// A duration in seconds as the dashboard prints it: `3h07m` when at least an
/// hour, else `42m`.
pub open spec fn duration_chars(secs: int) -> Seq<char> {
    let h = secs / 3600;
    let m = (secs % 3600) / 60;
    if h > 0 {
        decimal_chars(h) + seq!['h'] + two_digit_chars(m) + seq!['m']
    } else {
        decimal_chars(m) + seq!['m']
    }
}

/// Appends one decimal digit to a string.
fn push_digit(s: &mut String, v: u8)
    requires
        v < 10,
    ensures
        final(s)@ == old(s)@.push(digit_char(v as int)),
{
    proof {
        reveal_strlit("0");
        reveal_strlit("1");
        reveal_strlit("2");
        reveal_strlit("3");
        reveal_strlit("4");
        reveal_strlit("5");
        reveal_strlit("6");
        reveal_strlit("7");
        reveal_strlit("8");
        reveal_strlit("9");
    }
    let ghost prev = s@;
    if v == 0 {
        s.append("0");
    } else if v == 1 {
        s.append("1");
    } else if v == 2 {
        s.append("2");
    } else if v == 3 {
        s.append("3");
    } else if v == 4 {
        s.append("4");
    } else if v == 5 {
        s.append("5");
    } else if v == 6 {
        s.append("6");
    } else if v == 7 {
        s.append("7");
    } else if v == 8 {
        s.append("8");
    } else {
        s.append("9");
    }
    proof {
        assert(s@ =~= prev.push(digit_char(v as int)));
    }
}

/// A non-negative number in decimal.
pub fn decimal_string(n: u64) -> (r: String)
    ensures
        r@ == decimal_chars(n as int),
    decreases n,
{
    if n < 10 {
        let mut s = String::new();
        push_digit(&mut s, n as u8);
        proof {
            assert(s@ =~= seq![digit_char(n as int)]);
        }
        s
    } else {
        let mut s = decimal_string(n / 10);
        push_digit(&mut s, (n % 10) as u8);
        s
    }
}

/// Appends a value below 100 as two zero-padded digits.
pub(crate) fn push_two_digits(s: &mut String, v: u8)
    requires
        v < 100,
    ensures
        final(s)@ == old(s)@ + two_digit_chars(v as int),
{
    let ghost prev = s@;
    push_digit(s, v / 10);
    push_digit(s, v % 10);
    proof {
        assert(s@ =~= prev + two_digit_chars(v as int));
    }
}

/// The `HH:MM` clock label of a local wall-clock second.
pub fn hhmm_label(t: i64) -> (r: String)
    requires
        0 <= t,
    ensures
        r@ == hhmm_chars(t as int),
{
    proof {
        reveal_strlit(":");
    }
    let h = ((t % 86400) / 3600) as u8;
    let m = ((t % 3600) / 60) as u8;
    let mut s = String::new();
    push_two_digits(&mut s, h);
    s.append(":");
    push_two_digits(&mut s, m);
    proof {
        assert(s@ =~= hhmm_chars(t as int));
    }
    s
}

/// A duration in seconds, printed as hours and minutes.
pub fn format_duration(secs: i64) -> (r: String)
    requires
        0 <= secs,
    ensures
        r@ == duration_chars(secs as int),
{
    proof {
        reveal_strlit("h");
        reveal_strlit("m");
    }
    let hours = secs / 3600;
    let minutes = ((secs % 3600) / 60) as u8;
    if hours > 0 {
        let mut s = decimal_string(hours as u64);
        s.append("h");
        push_two_digits(&mut s, minutes);
        s.append("m");
        proof {
            assert(s@ =~= duration_chars(secs as int));
        }
        s
    } else {
        let mut s = decimal_string(minutes as u64);
        s.append("m");
        proof {
            assert(s@ =~= duration_chars(secs as int));
        }
        s
    }
}

} // verus!

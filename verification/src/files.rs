//! Names of the log files: the fixed rolling file of the current day, and
//! one archive file per calendar date.

use vstd::prelude::*;

use crate::date::Date;
use crate::date::date_chars;
use crate::date::date_string;
use crate::date::date_wf;

verus! {

/// Path of the rolling log file the collector appends to all day.
pub fn get_today_log_path() -> (r: &'static str)
    ensures
        r@ == "/tmp/battery_watt_history.csv"@,
{
    "/tmp/battery_watt_history.csv"
}

/// File name of a date's archive, `YYYY-MM-DD.csv`; the caller joins it to
/// its data directory.
pub fn archive_file_name(d: &Date) -> (r: String)
    requires
        date_wf(*d),
    ensures
        r@ == date_chars(*d) + ".csv"@,
{
    let mut s = date_string(d);
    s.append(".csv");
    s
}

} // verus!

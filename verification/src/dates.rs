//! Calendar dates through `chrono`: which dates exist, their ISO 8601 text
//! (`%F`), their short label (`%a, %d %b`) and the weekday a date falls on.
use chrono::Datelike;
use vstd::prelude::*;
use crate::model::{CobDate, valid_date};
use crate::text::{decimal, pad2, zero_pad};

verus! {

/// The year as `%Y` writes it: four digits, zero padded, for years from 0 to
/// 9999; a sign and at least four digits otherwise.
pub open spec fn year_text(y: int) -> Seq<char> {
    if 0 <= y <= 9999 {
        zero_pad(decimal(y as nat), 4)
    } else if y > 9999 {
        seq!['+'] + zero_pad(decimal(y as nat), 4)
    } else {
        seq!['-'] + zero_pad(decimal((-y) as nat), 4)
    }
}

/// A date as `%F` writes it: `YYYY-MM-DD`.
pub open spec fn iso_date_text(d: CobDate) -> Seq<char> {
    year_text(d.year as int) + seq!['-'] + zero_pad(decimal(d.month as nat), 2) + seq!['-'] + zero_pad(
        decimal(d.day as nat),
        2,
    )
}

/// Whether chrono has a date for the year, month and day
/// (`NaiveDate::from_ymd_opt` returns `Some` exactly for existing dates of
/// its range of years).
#[verifier::external_body]
fn date_exists(year: i32, month: u32, day: u32) -> (r: bool)
    ensures
        r == valid_date(CobDate { year, month, day }),
{
    chrono::NaiveDate::from_ymd_opt(year, month, day).is_some()
}

/// The `%F` text of an existing date, by chrono's `NaiveDate::format`.
#[verifier::external_body]
fn chrono_iso_date(year: i32, month: u32, day: u32) -> (r: String)
    requires
        valid_date(CobDate { year, month, day }),
    ensures
        r@ == iso_date_text(CobDate { year, month, day }),
{
    chrono::NaiveDate::from_ymd_opt(year, month, day).unwrap().format("%F").to_string()
}

/// The date that chrono's `NaiveDate::parse_from_str` reads from `text` in
/// the format `%Y-%m-%d`, or `None` when it reports an error.
pub uninterp spec fn parsed_date(text: Seq<char>) -> Option<CobDate>;

/// The date written in `text` as `%Y-%m-%d`, by chrono's
/// `NaiveDate::parse_from_str`. What it reads is a date chrono holds, and the
/// `%F` text of such a date reads back as that date (a sign and any number of
/// digits for the year, two digits for the month and the day). Which other
/// texts it accepts is left to the name `parsed_date`.
#[verifier::external_body]
pub(crate) fn parse_iso_date(text: &str) -> (r: Option<CobDate>)
    ensures
        r == parsed_date(text@),
        r matches Some(d) ==> valid_date(d),
        forall|d: CobDate| valid_date(d) && text@ == #[trigger] iso_date_text(d) ==> r == Some(d),
{
    match chrono::NaiveDate::parse_from_str(text, "%Y-%m-%d") {
        Ok(d) => Some(CobDate { year: d.year(), month: d.month(), day: d.day() }),
        Err(_) => None,
    }
}

/// The English abbreviation of month `m` (1 to 12).
pub open spec fn month_abbrev(m: u32) -> Seq<char> {
    if m == 1 { "Jan"@ }
    else if m == 2 { "Feb"@ }
    else if m == 3 { "Mar"@ }
    else if m == 4 { "Apr"@ }
    else if m == 5 { "May"@ }
    else if m == 6 { "Jun"@ }
    else if m == 7 { "Jul"@ }
    else if m == 8 { "Aug"@ }
    else if m == 9 { "Sep"@ }
    else if m == 10 { "Oct"@ }
    else if m == 11 { "Nov"@ }
    else { "Dec"@ }
}

/// The number of days from 1970-01-01 to a date of the proleptic Gregorian
/// calendar (negative before it): whole 400-year cycles of 146097 days, then
/// the years of the cycle, counted from March so that a leap day ends a year.
pub open spec fn days_from_epoch(y: int, m: int, d: int) -> int {
    let yy = if m <= 2 { y - 1 } else { y };
    let era = yy / 400;
    let yoe = yy - era * 400;
    let mp = if m > 2 { m - 3 } else { m + 9 };
    let doy = (153 * mp + 2) / 5 + d - 1;
    let doe = yoe * 365 + yoe / 4 - yoe / 100 + doy;
    era * 146097 + doe - 719468
}

/// The weekday of a date, from 0 for Sunday to 6 for Saturday (1970-01-01
/// was a Thursday).
pub open spec fn weekday_of(y: int, m: int, d: int) -> int {
    (days_from_epoch(y, m, d) + 4) % 7
}

/// The English abbreviation of weekday `w` (0 for Sunday).
pub open spec fn weekday_abbrev(w: int) -> Seq<char> {
    if w == 0 { "Sun"@ }
    else if w == 1 { "Mon"@ }
    else if w == 2 { "Tue"@ }
    else if w == 3 { "Wed"@ }
    else if w == 4 { "Thu"@ }
    else if w == 5 { "Fri"@ }
    else { "Sat"@ }
}

/// A date as `%a, %d %b` writes it, such as `Mon, 05 Feb`: the weekday's
/// abbreviation, a comma and a space, the day in two digits, a space and the
/// month's abbreviation.
pub open spec fn short_date_text(d: CobDate) -> Seq<char> {
    weekday_abbrev(weekday_of(d.year as int, d.month as int, d.day as int)) + ", "@ + pad2(d.day as nat) + " "@
        + month_abbrev(d.month)
}

/// The `%a, %d %b` text of an existing date, by chrono's
/// `NaiveDate::format` (English names of weekdays and months).
#[verifier::external_body]
fn chrono_short_date(year: i32, month: u32, day: u32) -> (r: String)
    requires
        valid_date(CobDate { year, month, day }),
    ensures
        r@ == short_date_text(CobDate { year, month, day }),
{
    chrono::NaiveDate::from_ymd_opt(year, month, day).unwrap().format("%a, %d %b").to_string()
}

/// Today in the local time zone, by chrono's `Local::now().date_naive()`;
/// whichever day it is, it is a date chrono holds. Which day it is depends on
/// the clock and is left unsaid.
#[verifier::external_body]
fn local_today() -> (r: CobDate)
    ensures
        valid_date(r),
{
    let d = chrono::Local::now().date_naive();
    CobDate { year: d.year(), month: d.month(), day: d.day() }
}

impl CobDate {
    /// The date of the given year, month and day, when it exists.
    pub fn new(year: i32, month: u32, day: u32) -> (r: Option<CobDate>)
        ensures
            valid_date(CobDate { year, month, day }) ==> r == Some(CobDate { year, month, day }),
            !valid_date(CobDate { year, month, day }) ==> r is None,
    {
        if date_exists(year, month, day) {
            Some(CobDate { year, month, day })
        } else {
            None
        }
    }

    /// Today in the local time zone (the day the diary and the charts end on).
    pub fn today() -> (r: CobDate)
        ensures
            valid_date(r),
    {
        local_today()
    }

    /// The date as `YYYY-MM-DD`.
    pub fn to_iso_string(&self) -> (r: String)
        requires
            valid_date(*self),
        ensures
            r@ == iso_date_text(*self),
    {
        chrono_iso_date(self.year, self.month, self.day)
    }

    /// The date as a grid row shows it, such as `Mon, 05 Feb`.
    pub fn to_short_label(&self) -> (r: String)
        requires
            valid_date(*self),
        ensures
            r@ == short_date_text(*self),
    {
        chrono_short_date(self.year, self.month, self.day)
    }
}

} // verus!

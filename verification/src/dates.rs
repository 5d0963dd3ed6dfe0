//! Calendar days as plain integers: a date is its day number counted from
//! the proleptic Gregorian 0001-01-01 (day 1), the numbering chrono calls
//! `num_days_from_ce`. Arithmetic on dates is arithmetic on these numbers;
//! only rendering and parsing go through chrono.
use chrono::{Datelike, NaiveDate};
use vstd::prelude::*;

verus! {

/// Day number of chrono's earliest date, -262143-01-01.
pub const MIN_DAY_NUMBER: i32 = -95_746_129;

/// Day number of chrono's latest date, 262142-12-31.
pub const MAX_DAY_NUMBER: i32 = 95_745_399;

/// Whether `day` is the day number of a date chrono can represent.
pub open spec fn valid_day_number(day: int) -> bool {
    MIN_DAY_NUMBER <= day <= MAX_DAY_NUMBER
}

/// The text chrono writes for the date with day number `day` under the
/// pattern `%Y-%m-%d`.
pub uninterp spec fn iso_date_text(day: int) -> Seq<char>;

/// The text of chrono's `Display` for the date with day number `day`.
pub uninterp spec fn display_date_text(day: int) -> Seq<char>;

/// The day number of the date chrono parses from `text` under the pattern
/// `%Y-%m-%d`, or `None` where it rejects the text.
pub uninterp spec fn parsed_iso_day(text: Seq<char>) -> Option<int>;

/// The `%Y-%m-%d` text of a year from 1 to 9999, a month and a day:
/// four, two and two zero-padded digits with hyphens between.
pub open spec fn four_digit_date_text(y: int, m: int, d: int) -> Seq<char> {
    crate::text::zero_padded(crate::text::decimal_text(y as nat), 4) + seq!['-']
        + crate::text::zero_padded(crate::text::decimal_text(m as nat), 2) + seq!['-']
        + crate::text::zero_padded(crate::text::decimal_text(d as nat), 2)
}

/// Renders a day number with chrono's `NaiveDate::format("%Y-%m-%d")`.
/// Claims the named result for this day; for the years 1 to 9999 (day
/// numbers 1 to `LAST_FOUR_DIGIT_DAY`), the text chrono documents for the
/// pattern (year in four digits, month and day in two, zero-padded) and
/// that chrono parses it back under the same pattern to the same day. The
/// day is inside chrono's range, so `from_num_days_from_ce_opt` returns a
/// date.
#[verifier::external_body]
pub(crate) fn iso_date_string(day: i32) -> (s: String)
    requires
        valid_day_number(day as int),
    ensures
        s@ == iso_date_text(day as int),
        1 <= day <= LAST_FOUR_DIGIT_DAY ==> s@ == four_digit_date_text(
            ymd_of_day(day as int).0,
            ymd_of_day(day as int).1,
            ymd_of_day(day as int).2,
        ),
        1 <= day <= LAST_FOUR_DIGIT_DAY ==> parsed_iso_day(s@) == Some(day as int),
{
    NaiveDate::from_num_days_from_ce_opt(day).unwrap().format("%Y-%m-%d").to_string()
}

/// Last day number of the year 9999; from day 1 up to it chrono writes
/// years with four digits.
pub const LAST_FOUR_DIGIT_DAY: i32 = 3_652_059;

/// Renders a day number with chrono's `Display` for `NaiveDate`.
/// Claims that the text is the named result for this day and, for the
/// years 1 to 9999, that chrono parses it back under `%Y-%m-%d` to the same
/// day (chrono documents `Display` and parsing as the one format
/// `%Y-%m-%d`, and writes such years with four digits).
#[verifier::external_body]
pub(crate) fn display_date_string(day: i32) -> (s: String)
    requires
        valid_day_number(day as int),
    ensures
        s@ == display_date_text(day as int),
        1 <= day <= LAST_FOUR_DIGIT_DAY ==> parsed_iso_day(s@) == Some(day as int),
{
    NaiveDate::from_num_days_from_ce_opt(day).unwrap().to_string()
}

/// Parses `text` with chrono's `NaiveDate::parse_from_str(text, "%Y-%m-%d")`
/// and returns the day number of the date, or `None` on a parse error.
/// Claims that the outcome is the named result for this text, and that a
/// parsed date lies in chrono's range.
#[verifier::external_body]
pub(crate) fn parse_iso_day(text: &str) -> (r: Option<i32>)
    ensures
        r matches Some(d) ==> parsed_iso_day(text@) == Some(d as int),
        r is None ==> parsed_iso_day(text@) is None,
        r matches Some(d) ==> valid_day_number(d as int),
{
    NaiveDate::parse_from_str(text, "%Y-%m-%d").ok().map(|date| date.num_days_from_ce())
}

/// Today's day number in the local time zone (chrono's `Local::now`).
/// Nothing is claimed beyond chrono's range: the result depends on the clock.
#[verifier::external_body]
pub(crate) fn today_day_number() -> (d: i32)
    ensures
        valid_day_number(d as int),
{
    chrono::Local::now().date_naive().num_days_from_ce()
}

/// The text of a local timestamp `%Y%m%d_%H%M%S`: at least four characters
/// of year (chrono pads `%Y` to four digits), then month and day, an
/// underscore, and hour, minute and second as two ASCII digits each.
pub open spec fn is_timestamp_text(t: Seq<char>) -> bool {
    &&& t.len() >= 15
    &&& t[t.len() - 7] == '_'
    &&& forall|k: int| t.len() - 6 <= k < t.len() ==> '0' <= #[trigger] t[k] <= '9'
}

/// The local time as chrono's `Local::now().format("%Y%m%d_%H%M%S")`.
/// Which time it is depends on the clock; what is claimed is the shape of
/// the text, which chrono's formatting fixes for every time.
#[verifier::external_body]
pub(crate) fn local_timestamp() -> (s: String)
    ensures
        is_timestamp_text(s@),
{
    chrono::Local::now().format("%Y%m%d_%H%M%S").to_string()
}


/// The (year, month, day) of the date with day number `day`, as chrono's
/// `Datelike` reads them.
pub uninterp spec fn ymd_of_day(day: int) -> (int, int, int);

/// The day number of the Gregorian date `y-m-d`, or `None` where chrono's
/// `NaiveDate::from_ymd_opt` rejects it.
pub uninterp spec fn day_of_gregorian(y: int, m: int, d: int) -> Option<int>;

/// The year, month and day of a day number, with chrono's
/// `NaiveDate::from_num_days_from_ce_opt` and `Datelike`. Claims the named
/// result, with a month from 1 to 12 and a day from 1 to 31, as chrono
/// documents them; building the date back from them gives the same day,
/// and the days 1 to `LAST_FOUR_DIGIT_DAY` lie in the years 1 to 9999.
#[verifier::external_body]
pub(crate) fn gregorian_ymd(day: i32) -> (r: (i32, u32, u32))
    requires
        valid_day_number(day as int),
    ensures
        (r.0 as int, r.1 as int, r.2 as int) == ymd_of_day(day as int),
        1 <= r.1 <= 12,
        1 <= r.2 <= 31,
        day_of_gregorian(r.0 as int, r.1 as int, r.2 as int) == Some(day as int),
        1 <= day <= LAST_FOUR_DIGIT_DAY ==> 1 <= r.0 <= 9999,
{
    let date = NaiveDate::from_num_days_from_ce_opt(day).unwrap();
    (date.year(), date.month(), date.day())
}

/// The day number of `y-m-d` with chrono's `NaiveDate::from_ymd_opt`, or
/// `None` where it is not a date chrono represents. Claims the named
/// result, inside chrono's range.
#[verifier::external_body]
pub(crate) fn day_of_ymd(y: i32, m: u32, d: u32) -> (r: Option<i32>)
    ensures
        match r {
            Some(n) => day_of_gregorian(y as int, m as int, d as int) == Some(n as int) && valid_day_number(n as int),
            None => day_of_gregorian(y as int, m as int, d as int) is None,
        },
{
    match NaiveDate::from_ymd_opt(y, m, d) {
        Some(date) => Some(date.num_days_from_ce()),
        None => None,
    }
}

} // verus!

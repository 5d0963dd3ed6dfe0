//! The Hijri calendar page: the Umm al-Qura date of a day (through the
//! `hijri_date` crate), the layout of a Hijri month under weekday columns,
//! the Islamic occasions of a date, and the Gregorian date line.
use hijri_date::HijriDate;
use vstd::prelude::*;
use vstd::string::*;
use crate::dates;
use crate::i18n;
use crate::text;

verus! {

/// The Umm al-Qura date `hijri_date`'s `HijriDate::from_gr` gives for the
/// Gregorian date `y-m-d` — (year, month, day, length of that month) — or
/// `None` where it rejects the date (out of its years 1938 to 2076, or not
/// a date).
pub uninterp spec fn hijri_of_gregorian(y: int, m: int, d: int) -> Option<(int, int, int, int)>;

/// The Gregorian date `HijriDate::from_hijri` gives for the Hijri date
/// `y-m-d` — (year, month, day, length of the Hijri month) — or `None`
/// where it rejects the date.
pub uninterp spec fn gregorian_of_hijri(y: int, m: int, d: int) -> Option<(int, int, int, int)>;

/// Converts a Gregorian date with `HijriDate::from_gr`. Claims only the
/// named result.
#[verifier::external_body]
fn hijri_from_gregorian(y: usize, m: usize, d: usize) -> (r: Option<(usize, usize, usize, usize)>)
    ensures
        match r {
            Some(h) => hijri_of_gregorian(y as int, m as int, d as int) == Some(
                (h.0 as int, h.1 as int, h.2 as int, h.3 as int),
            ),
            None => hijri_of_gregorian(y as int, m as int, d as int) is None,
        },
{
    match HijriDate::from_gr(y, m, d) {
        Ok(h) => Some((h.year(), h.month(), h.day(), h.month_len())),
        Err(_) => None,
    }
}

/// Converts a Hijri date with `HijriDate::from_hijri`, which needs a month
/// of at least 1 (it subtracts one from it). Claims only the named result.
#[verifier::external_body]
fn gregorian_from_hijri(y: usize, m: usize, d: usize) -> (r: Option<(usize, usize, usize, usize)>)
    requires
        m >= 1,
    ensures
        match r {
            Some(g) => gregorian_of_hijri(y as int, m as int, d as int) == Some(
                (g.0 as int, g.1 as int, g.2 as int, g.3 as int),
            ),
            None => gregorian_of_hijri(y as int, m as int, d as int) is None,
        },
{
    match HijriDate::from_hijri(y, m, d) {
        Ok(h) => Some((h.year_gr(), h.month_gr(), h.day_gr(), h.month_len())),
        Err(_) => None,
    }
}

/// A Hijri date: year, month, day, and the length of its month.
#[derive(Debug, Clone, Copy, PartialEq, Eq, Structural)]
pub struct HijriDay {
    pub year: usize,
    pub month: usize,
    pub day: usize,
    pub month_len: usize,
}

/// The Hijri date of day `day` moved by `offset` days (the user's
/// correction for the local sighting).
pub open spec fn hijri_of_day_spec(day: int, offset: int) -> Option<(int, int, int, int)> {
    let (y, m, d) = dates::ymd_of_day(day + offset);
    if y >= 0 {
        hijri_of_gregorian(y, m, d)
    } else {
        None
    }
}

/// The Hijri date of a day after the correction; `None` outside the years
/// the Umm al-Qura tables cover.
pub fn hijri_date_of_day(day: i32, offset: i64) -> (r: Option<HijriDay>)
    requires
        dates::valid_day_number(day + offset),
    ensures
        match r {
            Some(h) => hijri_of_day_spec(day as int, offset as int) == Some(
                (h.year as int, h.month as int, h.day as int, h.month_len as int),
            ),
            None => hijri_of_day_spec(day as int, offset as int) is None,
        },
{
    let moved = (day as i64 + offset) as i32;
    let (y, m, d) = dates::gregorian_ymd(moved);
    if y < 0 {
        return None;
    }
    match hijri_from_gregorian(y as usize, m as usize, d as usize) {
        Some((hy, hm, hd, len)) => Some(HijriDay { year: hy, month: hm, day: hd, month_len: len }),
        None => None,
    }
}

/// The weekday of a day number counted from Sunday (0) to Saturday (6);
/// day 1, 0001-01-01, is a Monday.
pub open spec fn weekday_from_sunday(day: int) -> int {
    day % 7
}

/// The weekday of a day, counted from Sunday.
pub fn weekday_of_day(day: i32) -> (r: u32)
    ensures
        r == weekday_from_sunday(day as int),
{
    if day >= 0 {
        (day as u32) % 7
    } else {
        let k: u64 = (0i64 - (day as i64)) as u64;
        let m = k % 7;
        let w: u64 = if m == 0 {
            0
        } else {
            7 - m
        };
        proof {
            let d = day as int;
            assert(w == d % 7) by (nonlinear_arith)
                requires
                    k == -d,
                    m == k % 7,
                    w == (if m == 0 { 0 } else { 7 - m }),
                    d < 0,
            ;
        }
        w as u32
    }
}

/// Where day `n` (from 1) of a month whose first day falls on weekday
/// `start` stands: column (weekday from Sunday) and row (from 1, below the
/// weekday names).
pub open spec fn cell_of(start: int, n: int) -> (int, int) {
    ((start + n - 1) % 7, 1 + (start + n - 1) / 7)
}

/// One day of the month grid.
#[derive(Debug, Clone, Copy, PartialEq, Eq, Structural)]
pub struct GridCell {
    pub day: u32,
    pub column: u32,
    pub row: u32,
}

/// The cells of a month of `month_len` days starting on weekday `start`,
/// filled left to right and top to bottom.
pub fn month_grid(start: u32, month_len: u32) -> (r: Vec<GridCell>)
    requires
        start < 7,
        month_len <= 31,
    ensures
        r@.len() == month_len,
        forall|k: int| 0 <= k < r@.len() ==> {
            &&& #[trigger] r@[k].day == k + 1
            &&& (r@[k].column as int, r@[k].row as int) == cell_of(start as int, k + 1)
        },
{
    let mut r: Vec<GridCell> = Vec::new();
    let mut col: u32 = start;
    let mut row: u32 = 1;
    let mut n: u32 = 1;
    while n <= month_len
        invariant
            start < 7,
            month_len <= 31,
            1 <= n <= month_len + 1,
            r@.len() == n - 1,
            col < 7,
            (col as int, row as int) == cell_of(start as int, n as int),
            row <= 6,
            forall|k: int| 0 <= k < r@.len() ==> {
                &&& #[trigger] r@[k].day == k + 1
                &&& (r@[k].column as int, r@[k].row as int) == cell_of(start as int, k + 1)
            },
        decreases month_len + 1 - n,
    {
        r.push(GridCell { day: n, column: col, row });
        proof {
            let t = start + n - 1;
            assert(((t + 1) % 7, 1 + (t + 1) / 7) == (if col + 1 > 6 { (0int, row + 1) } else { (col + 1, row as int) }))
                by (nonlinear_arith)
                requires
                    col == t % 7,
                    row == 1 + t / 7,
                    0 <= t,
                    col < 7,
            ;
        }
        col = col + 1;
        if col > 6 {
            col = 0;
            row = row + 1;
        }
        n = n + 1;
    }
    r
}

/// The weekday (from Sunday) of the first day of a Hijri month and the
/// month's length; `None` where the tables do not cover the month or its
/// Gregorian date is not one chrono represents.
pub open spec fn hijri_month_start_spec(year: int, month: int) -> Option<(int, int)> {
    match gregorian_of_hijri(year, month, 1) {
        Some(g) => if g.0 <= i32::MAX && g.1 <= u32::MAX && g.2 <= u32::MAX {
            match dates::day_of_gregorian(g.0, g.1, g.2) {
                Some(n) => Some((weekday_from_sunday(n), g.3)),
                None => None,
            }
        } else {
            None
        },
        None => None,
    }
}

/// Where a Hijri month begins in the week, and how long it is.
pub fn hijri_month_start(year: usize, month: usize) -> (r: Option<(u32, usize)>)
    requires
        month >= 1,
    ensures
        match r {
            Some((w, len)) => hijri_month_start_spec(year as int, month as int) == Some((w as int, len as int)),
            None => hijri_month_start_spec(year as int, month as int) is None,
        },
{
    match gregorian_from_hijri(year, month, 1) {
        Some((gy, gm, gd, len)) => {
            if gy > 2147483647 || gm > 4294967295 || gd > 4294967295 {
                return None;
            }
            match dates::day_of_ymd(gy as i32, gm as u32, gd as u32) {
                Some(day) => Some((weekday_of_day(day), len)),
                None => None,
            }
        },
        None => None,
    }
}

/// The message naming the Islamic occasion of a Hijri date, if any.
pub open spec fn occasion_key(month: int, day: int) -> Option<Seq<char>> {
    if month == 9 && day == 1 {
        Some("First Day of Ramadan"@)
    } else if month == 10 && day == 1 {
        Some("Eid al-Fitr"@)
    } else if month == 12 && day == 10 {
        Some("Eid al-Adha"@)
    } else if month == 12 && day == 9 {
        Some("Day of Arafah"@)
    } else if month == 1 && day == 1 {
        Some("Islamic New Year"@)
    } else if month == 1 && day == 10 {
        Some("Ashura"@)
    } else if month == 3 && day == 12 {
        Some("Mawlid al-Nabi"@)
    } else {
        None
    }
}

/// The occasion of a Hijri date, in the interface language.
pub fn occasion_label(month: u32, day: u32) -> (r: Option<String>)
    ensures
        match occasion_key(month as int, day as int) {
            Some(k) => r matches Some(t) && i18n::is_tr_of(t@, k),
            None => r is None,
        },
{
    proof {
        reveal_strlit("First Day of Ramadan");
        reveal_strlit("Eid al-Fitr");
        reveal_strlit("Eid al-Adha");
        reveal_strlit("Day of Arafah");
        reveal_strlit("Islamic New Year");
        reveal_strlit("Ashura");
        reveal_strlit("Mawlid al-Nabi");
    }
    if month == 9 && day == 1 {
        Some(i18n::translate("First Day of Ramadan"))
    } else if month == 10 && day == 1 {
        Some(i18n::translate("Eid al-Fitr"))
    } else if month == 12 && day == 10 {
        Some(i18n::translate("Eid al-Adha"))
    } else if month == 12 && day == 9 {
        Some(i18n::translate("Day of Arafah"))
    } else if month == 1 && day == 1 {
        Some(i18n::translate("Islamic New Year"))
    } else if month == 1 && day == 10 {
        Some(i18n::translate("Ashura"))
    } else if month == 3 && day == 12 {
        Some(i18n::translate("Mawlid al-Nabi"))
    } else {
        None
    }
}

/// The English names of the Gregorian months, from January.
pub open spec fn month_name_key(month: int) -> Seq<char> {
    if month == 1 {
        "January"@
    } else if month == 2 {
        "February"@
    } else if month == 3 {
        "March"@
    } else if month == 4 {
        "April"@
    } else if month == 5 {
        "May"@
    } else if month == 6 {
        "June"@
    } else if month == 7 {
        "July"@
    } else if month == 8 {
        "August"@
    } else if month == 9 {
        "September"@
    } else if month == 10 {
        "October"@
    } else if month == 11 {
        "November"@
    } else if month == 12 {
        "December"@
    } else {
        ""@
    }
}

/// The English names of the weekdays, from Sunday.
pub open spec fn weekday_name_key(w: int) -> Seq<char> {
    if w == 0 {
        "Sunday"@
    } else if w == 1 {
        "Monday"@
    } else if w == 2 {
        "Tuesday"@
    } else if w == 3 {
        "Wednesday"@
    } else if w == 4 {
        "Thursday"@
    } else if w == 5 {
        "Friday"@
    } else if w == 6 {
        "Saturday"@
    } else {
        ""@
    }
}

fn month_key(month: u32) -> (r: &'static str)
    ensures
        r@ == month_name_key(month as int),
{
    if month == 1 {
        "January"
    } else if month == 2 {
        "February"
    } else if month == 3 {
        "March"
    } else if month == 4 {
        "April"
    } else if month == 5 {
        "May"
    } else if month == 6 {
        "June"
    } else if month == 7 {
        "July"
    } else if month == 8 {
        "August"
    } else if month == 9 {
        "September"
    } else if month == 10 {
        "October"
    } else if month == 11 {
        "November"
    } else if month == 12 {
        "December"
    } else {
        ""
    }
}

fn weekday_key(w: u32) -> (r: &'static str)
    ensures
        r@ == weekday_name_key(w as int),
{
    if w == 0 {
        "Sunday"
    } else if w == 1 {
        "Monday"
    } else if w == 2 {
        "Tuesday"
    } else if w == 3 {
        "Wednesday"
    } else if w == 4 {
        "Thursday"
    } else if w == 5 {
        "Friday"
    } else if w == 6 {
        "Saturday"
    } else {
        ""
    }
}

proof fn lemma_keys_have_no_nul(month: int, w: int)
    ensures
        !month_name_key(month).contains('\0'),
        !weekday_name_key(w).contains('\0'),
{
    reveal_strlit("January");
    reveal_strlit("February");
    reveal_strlit("March");
    reveal_strlit("April");
    reveal_strlit("May");
    reveal_strlit("June");
    reveal_strlit("July");
    reveal_strlit("August");
    reveal_strlit("September");
    reveal_strlit("October");
    reveal_strlit("November");
    reveal_strlit("December");
    reveal_strlit("Sunday");
    reveal_strlit("Monday");
    reveal_strlit("Tuesday");
    reveal_strlit("Wednesday");
    reveal_strlit("Thursday");
    reveal_strlit("Friday");
    reveal_strlit("Saturday");
    reveal_strlit("");
}

/// The localized name of a Gregorian month (1 to 12; the empty message for
/// any other number).
pub fn gregorian_month_name(month: u32) -> (r: String)
    ensures
        i18n::is_tr_of(r@, month_name_key(month as int)),
{
    proof {
        lemma_keys_have_no_nul(month as int, 0);
    }
    i18n::translate(month_key(month))
}

/// The localized name of a weekday counted from Sunday.
pub fn gregorian_weekday_name(weekday: u32) -> (r: String)
    ensures
        i18n::is_tr_of(r@, weekday_name_key(weekday as int)),
{
    proof {
        lemma_keys_have_no_nul(1, weekday as int);
    }
    i18n::translate(weekday_key(weekday))
}

/// The Gregorian line of the date details: "weekday, DD month year".
pub fn gregorian_date_line(day: i32) -> (r: String)
    requires
        dates::valid_day_number(day as int),
    ensures
        ({
            let (y, m, d) = dates::ymd_of_day(day as int);
            exists|w: Seq<char>, mn: Seq<char>|
                #![trigger i18n::is_tr_of(w, weekday_name_key(weekday_from_sunday(day as int))), i18n::is_tr_of(mn, month_name_key(m))]
                i18n::is_tr_of(w, weekday_name_key(weekday_from_sunday(day as int))) && i18n::is_tr_of(mn, month_name_key(m))
                    && r@ == w + ", "@ + text::decimal2_text(d as nat) + " "@ + mn + " "@ + text::signed_decimal_text(y)
        }),
{
    let (y, m, d) = dates::gregorian_ymd(day);
    let w = weekday_of_day(day);
    let mut line = gregorian_weekday_name(w);
    line.append(", ");
    text::push_decimal2(&mut line, d as u64);
    line.append(" ");
    let mn = gregorian_month_name(m);
    line.append(mn.as_str());
    line.append(" ");
    text::push_signed_decimal(&mut line, y);
    line
}

} // verus!

use khushu::calendar::{
    gregorian_date_line, gregorian_month_name, gregorian_weekday_name, hijri_date_of_day, hijri_month_start,
    month_grid, occasion_label, weekday_of_day, HijriDay,
};

fn iso_day(text: &str) -> Option<i32> {
    chrono::NaiveDate::parse_from_str(text, "%Y-%m-%d").ok().map(|d| chrono::Datelike::num_days_from_ce(&d))
}

#[test]
fn weekdays_count_from_sunday() {
    assert_eq!(weekday_of_day(1), 1);
    assert_eq!(weekday_of_day(0), 0);
    assert_eq!(weekday_of_day(-1), 6);
    let day = iso_day("2024-03-11").unwrap();
    assert_eq!(weekday_of_day(day), 1);
    let friday = iso_day("2026-01-30").unwrap();
    assert_eq!(weekday_of_day(friday), 5);
}

#[test]
fn first_of_ramadan_1445() {
    let day = iso_day("2024-03-11").unwrap();
    let h = hijri_date_of_day(day, 0).unwrap();
    assert_eq!((h.year, h.month, h.day), (1445, 9, 1));
    assert_eq!(h.month_len, 30);
    let before = hijri_date_of_day(day, -1).unwrap();
    assert_eq!((before.year, before.month, before.day), (1445, 8, 29));
}

#[test]
fn hijri_offset_moves_the_date() {
    let day = iso_day("2024-03-10").unwrap();
    let moved: HijriDay = hijri_date_of_day(day, 1).unwrap();
    assert_eq!((moved.month, moved.day), (9, 1));
}

#[test]
fn ramadan_1445_starts_on_monday() {
    assert_eq!(hijri_month_start(1445, 9), Some((1, 30)));
}

#[test]
fn month_grid_fills_rows_from_the_start_weekday() {
    let grid = month_grid(3, 30);
    assert_eq!(grid.len(), 30);
    assert_eq!((grid[0].day, grid[0].column, grid[0].row), (1, 3, 1));
    assert_eq!((grid[3].day, grid[3].column, grid[3].row), (4, 6, 1));
    assert_eq!((grid[4].day, grid[4].column, grid[4].row), (5, 0, 2));
    assert_eq!((grid[29].day, grid[29].column, grid[29].row), (30, 4, 5));
    assert!(month_grid(0, 0).is_empty());
}

#[test]
fn occasions_of_the_hijri_year() {
    assert_eq!(occasion_label(9, 1).as_deref(), Some("First Day of Ramadan"));
    assert_eq!(occasion_label(10, 1).as_deref(), Some("Eid al-Fitr"));
    assert_eq!(occasion_label(12, 9).as_deref(), Some("Day of Arafah"));
    assert_eq!(occasion_label(12, 10).as_deref(), Some("Eid al-Adha"));
    assert_eq!(occasion_label(1, 1).as_deref(), Some("Islamic New Year"));
    assert_eq!(occasion_label(1, 10).as_deref(), Some("Ashura"));
    assert_eq!(occasion_label(3, 12).as_deref(), Some("Mawlid al-Nabi"));
    assert_eq!(occasion_label(2, 2), None);
}

#[test]
fn gregorian_names_and_line() {
    assert_eq!(gregorian_month_name(3), "March");
    assert_eq!(gregorian_weekday_name(0), "Sunday");
    let day = iso_day("2024-03-11").unwrap();
    assert_eq!(gregorian_date_line(day), "Monday, 11 March 2024");
    let early = iso_day("2024-01-05").unwrap();
    assert_eq!(gregorian_date_line(early), "Friday, 05 January 2024");
}

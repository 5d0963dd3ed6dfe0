use chrono::{Datelike, NaiveDate};
use khushu::arabic::{contains_arabic, is_arabic_ignorable, is_arabic_query, normalize_arabic, normalize_arabic_char, to_arabic_indic};
use khushu::dates::{MAX_DAY_NUMBER, MIN_DAY_NUMBER};
use khushu::platform::{is_flatpak, is_sandboxed, is_snap, SandboxHints};
use khushu::quran_index::{get_juz_page_range, get_surah_start_page, requested_quran_page};

#[test]
fn arabic_queries_and_marks() {
    assert!(is_arabic_query("الحمد لله"));
    assert!(!is_arabic_query("mercy"));
    assert!(is_arabic_ignorable('\u{064E}'));
    assert!(!is_arabic_ignorable('ا'));
    assert!(contains_arabic("Surah الفاتحة"));
    assert!(!contains_arabic("Al-Fatiha"));
}

#[test]
fn normalization_folds_variants_and_drops_marks() {
    assert_eq!(normalize_arabic_char('أ'), 'ا');
    assert_eq!(normalize_arabic_char('ة'), 'ه');
    assert_eq!(normalize_arabic("بِسْمِ"), "بسم");
    assert_eq!(normalize_arabic("إِيمَان"), "ايمان");
    assert_eq!(normalize_arabic("ءamen"), "amen");
}

#[test]
fn arabic_indic_digits() {
    assert_eq!(to_arabic_indic(0), "٠");
    assert_eq!(to_arabic_indic(286), "٢٨٦");
}

#[test]
fn day_numbers_bound_chrono_dates() {
    assert_eq!(NaiveDate::MIN.num_days_from_ce(), MIN_DAY_NUMBER);
    assert_eq!(NaiveDate::MAX.num_days_from_ce(), MAX_DAY_NUMBER);
    assert_eq!(NaiveDate::from_ymd_opt(9999, 12, 31).unwrap().num_days_from_ce(), khushu::dates::LAST_FOUR_DIGIT_DAY);
}

#[test]
fn sandbox_detection() {
    let none = SandboxHints { flatpak_info_exists: false, flatpak_id_set: false, container: None, snap_set: false };
    assert!(!is_sandboxed(&none));
    let container = SandboxHints { container: Some("flatpak".to_string()), ..none };
    assert!(is_flatpak(&container) && is_sandboxed(&container));
    let snap = SandboxHints { flatpak_info_exists: false, flatpak_id_set: false, container: Some("docker".to_string()), snap_set: true };
    assert!(!is_flatpak(&snap) && is_snap(&snap) && is_sandboxed(&snap));
}

#[test]
fn quran_pages() {
    assert_eq!(get_surah_start_page(1), Some(1));
    assert_eq!(get_surah_start_page(2), Some(2));
    assert_eq!(get_surah_start_page(114), Some(604));
    assert_eq!(get_surah_start_page(0), None);
    assert_eq!(get_surah_start_page(115), None);
    assert_eq!(get_juz_page_range(30), (582, 604));
    assert_eq!(requested_quran_page(604), Some(604));
    assert_eq!(requested_quran_page(605), None);
}

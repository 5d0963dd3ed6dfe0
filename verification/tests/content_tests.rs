use chrono::{Datelike, NaiveDate};
use khushu::islamic_content::{ContentCategory, ContentService, IslamicReminderKeys};

fn day(y: i32, m: u32, d: u32) -> i32 {
    NaiveDate::from_ymd_opt(y, m, d).unwrap().num_days_from_ce()
}

#[test]
fn test_content_selection_is_deterministic() {
    let date = day(2026, 8, 16);
    let k1 = ContentService::get_reminder_keys(ContentCategory::PrePrayer, date, "Dhuhr");
    let k2 = ContentService::get_reminder_keys(ContentCategory::PrePrayer, date, "Dhuhr");
    assert_eq!(k1.text_key, k2.text_key);
    assert_eq!(k1.source_key, k2.source_key);
}

#[test]
fn test_different_prayers_or_categories_vary() {
    let date = day(2026, 8, 16);
    let k1 = ContentService::get_reminder_keys(ContentCategory::PrePrayer, date, "Fajr");
    let k2 = ContentService::get_reminder_keys(ContentCategory::Iqamah, date, "Fajr");
    assert!(!k1.text_key.is_empty());
    assert!(!k2.text_key.is_empty());
}

#[test]
fn reminder_index_follows_day_occasion_and_name_bytes() {
    let date = day(2026, 8, 16);
    let name_sum: usize = "Fajr".bytes().map(|b| b as usize).sum();
    let pool = ContentService::get_pool(ContentCategory::Iqamah);
    let expected = (date as usize + 2 * 3 + name_sum) % pool.len();
    let keys = ContentService::get_reminder_keys(ContentCategory::Iqamah, date, "Fajr");
    assert_eq!(keys.text_key, pool[expected].0);
    assert_eq!(keys.source_key, pool[expected].1);
}

#[test]
fn pools_have_their_sizes() {
    assert_eq!(ContentService::get_pool(ContentCategory::PrePrayer).len(), 4);
    assert_eq!(ContentService::get_pool(ContentCategory::PrayerTime).len(), 3);
    assert_eq!(ContentService::get_pool(ContentCategory::Iqamah).len(), 3);
    assert_eq!(ContentService::get_pool(ContentCategory::PreviousCheck).len(), 2);
}

#[test]
fn resolving_untranslated_keys_keeps_them() {
    let keys = IslamicReminderKeys { text_key: "Guard strictly your prayers, especially the middle prayer.", source_key: Some("Surah Al-Baqarah 2:238") };
    let (text, source) = keys.resolve();
    assert_eq!(text, "Guard strictly your prayers, especially the middle prayer.");
    assert_eq!(source.as_deref(), Some("Surah Al-Baqarah 2:238"));
}

#[test]
fn no_reminder_text_is_in_two_pools() {
    let cats = [
        ContentCategory::PrePrayer,
        ContentCategory::PrayerTime,
        ContentCategory::Iqamah,
        ContentCategory::PreviousCheck,
    ];
    for (a, ca) in cats.iter().enumerate() {
        for (t, src) in ContentService::get_pool(*ca) {
            assert!(!t.is_empty());
            assert!(src.map_or(false, |s| !s.is_empty()));
            for (b, cb) in cats.iter().enumerate() {
                if a != b {
                    assert!(ContentService::get_pool(*cb).iter().all(|(u, _)| *u != t));
                }
            }
        }
    }
}

#[test]
fn reminders_are_picked_for_dates_before_year_one() {
    let date: i32 = -1000;
    let name = "Asr";
    let pool = ContentService::get_pool(ContentCategory::Iqamah);
    let sum: usize = name.bytes().map(|b| b as usize).sum();
    let k = (date as usize + 3 * 2 + sum) % pool.len();
    let keys = ContentService::get_reminder_keys(ContentCategory::Iqamah, date, name);
    assert_eq!(keys.text_key, pool[k].0);
    assert_eq!(keys.source_key, pool[k].1);
}

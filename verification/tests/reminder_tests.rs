use khushu::islamic_content::ContentCategory;
use khushu::reminder::{
    notification_content, prayer_popup_heading, previous_prayer_prompt, quote_text, source_text,
    wird_popup_content, ReminderEvent,
};

#[test]
fn pre_prayer_notification_names_prayer_and_minutes() {
    let event = ReminderEvent::PrePrayer { prayer_name: "Fajr".to_string(), minutes_left: 15, prev_check: None };
    let n = notification_content(&event);
    assert_eq!(n.title, "Upcoming Prayer: Fajr");
    assert_eq!(n.body, "Fajr is in 15 minutes");
    assert!(!n.is_adhan);
    assert_eq!(n.open_label, "Open Khushu");
    assert_eq!(n.stop_label, "Stop Adhan");
}

#[test]
fn pre_prayer_notification_asks_about_previous_prayer() {
    let event = ReminderEvent::PrePrayer {
        prayer_name: "Dhuhr".to_string(),
        minutes_left: 5,
        prev_check: Some(("Fajr".to_string(), 739000)),
    };
    let n = notification_content(&event);
    assert_eq!(n.body, "Dhuhr is in 5 minutes (Previous prayer: Fajr)");
}

#[test]
fn adhan_and_iqamah_notifications() {
    let adhan = notification_content(&ReminderEvent::PrayerTime { prayer_name: "Asr".to_string() });
    assert!(adhan.is_adhan);
    assert_eq!(adhan.title, "It's time for Asr");
    assert_eq!(adhan.body, "It is now time for Asr.");
    let iqamah = notification_content(&ReminderEvent::Iqamah { prayer_name: "Isha".to_string(), delay_mins: 10 });
    assert!(!iqamah.is_adhan);
    assert_eq!(iqamah.title, "Iqamah Isha");
    assert_eq!(iqamah.body, "It is time for Iqamah of Isha (10 minutes).");
}

#[test]
fn wird_notification_buttons() {
    let event = ReminderEvent::QuranWird {
        start_page: 10,
        end_page: 14,
        total_pages: 5,
        completed_pages: 2,
        remaining_pages: 3,
        target_page: 12,
        is_startup: true,
    };
    let n = notification_content(&event);
    assert_eq!(n.title, "Today's Quran Wird");
    assert_eq!(n.open_label, "Start Reading");
    assert_eq!(n.stop_label, "Later");
    assert_eq!(n.body, "Don't forget your Quran reading for today. (Pages 10–14)");
    assert!(!n.is_adhan);
}

#[test]
fn popup_headings_by_reminder() {
    let pre = prayer_popup_heading(&ReminderEvent::PrePrayer {
        prayer_name: "Maghrib".to_string(),
        minutes_left: 20,
        prev_check: None,
    })
    .unwrap();
    assert_eq!(pre.title, "Prayer Reminder");
    assert_eq!(pre.hero, "Maghrib in 20 minutes");
    assert_eq!(pre.category, ContentCategory::PrePrayer);
    let at = prayer_popup_heading(&ReminderEvent::PrayerTime { prayer_name: "Fajr".to_string() }).unwrap();
    assert_eq!(at.hero, "It's time for Fajr");
    assert_eq!(at.category, ContentCategory::PrayerTime);
    let iq = prayer_popup_heading(&ReminderEvent::Iqamah { prayer_name: "Asr".to_string(), delay_mins: 5 }).unwrap();
    assert_eq!(iq.title, "Iqamah Reminder");
    assert_eq!(iq.hero, "Approaching Iqamah for Asr");
    let wird = ReminderEvent::QuranWird {
        start_page: 1,
        end_page: 2,
        total_pages: 2,
        completed_pages: 0,
        remaining_pages: 2,
        target_page: 1,
        is_startup: false,
    };
    assert!(prayer_popup_heading(&wird).is_none());
}

#[test]
fn wird_popup_at_startup_and_later() {
    let start = wird_popup_content(100, 104, 5, 0, 5, 100, true);
    assert_eq!(start.subtitle, "Don't forget your Quran reading for today.");
    assert_eq!(start.goal_row, "Today's Goal: 5 pages");
    assert_eq!(start.range_row, "Today's Range: 100–104");
    assert_eq!(start.read_label, "Start Reading");
    assert_eq!(start.target_page, 100);
    let later = wird_popup_content(100, 104, 5, 2, 3, 102, false);
    assert_eq!(later.subtitle, "You still have 3 pages remaining.");
    assert_eq!(later.goal_row, "Completed: 2 / 5 pages");
    assert_eq!(later.read_label, "Continue Reading");
    assert_eq!(later.later_label, "Later");
}

#[test]
fn quotes_sources_and_prompt() {
    assert_eq!(quote_text("Patience"), "“Patience”");
    assert_eq!(source_text("Quran 2:153"), "— Quran 2:153");
    assert_eq!(previous_prayer_prompt("Isha"), "Did you pray Isha?");
}

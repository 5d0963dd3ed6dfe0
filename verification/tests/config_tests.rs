use khushu::adkar::{AdkarSet, Dikr, DikrCategory};
use khushu::config::{
    add_installed_reciter, default_iqamah_minutes, migrate, remove_installed_reciter, normalise_bookmarks, MigratableConfig, QuranBookmark,
    TimeFormat, CONFIG_SCHEMA_VERSION,
};

fn empty_source() -> AdkarSet {
    AdkarSet::from_list(Vec::new())
}

fn dikr(id: &str, category: DikrCategory, arabic: &str) -> Dikr {
    Dikr {
        id: id.to_string(),
        category,
        count: 1,
        count_display: None,
        arabic: arabic.to_string(),
        translation: String::new(),
        reference: String::new(),
    }
}

#[test]
fn test_default_config_iqamah_minutes() {
    let iqamah = default_iqamah_minutes();
    let get = |name: &str| iqamah.iter().find(|(n, _)| n == name).map(|(_, m)| *m);
    assert_eq!(get("Fajr"), Some(20));
    assert_eq!(get("Dhuhr"), Some(10));
    assert_eq!(get("Asr"), Some(10));
    assert_eq!(get("Maghrib"), Some(5));
    assert_eq!(get("Isha"), Some(10));
}

#[test]
fn legacy_singular_bookmark_migrates_to_list_and_bumps_version() {
    let mut config = MigratableConfig {
        schema_version: 0,
        favorites: Vec::new(),
        quran_bookmark_surah_number: Some(2),
        quran_bookmark_page: Some(8),
        quran_bookmarks: vec![QuranBookmark { page: 8, surah_number: 2, verse: 1 }],
    };
    assert_eq!(config.schema_version, 0, "missing key must default to legacy");
    assert_eq!(config.quran_bookmarks.len(), 1, "dedup must not duplicate the page");

    assert!(migrate(&mut config, &empty_source()));
    assert_eq!(config.schema_version, CONFIG_SCHEMA_VERSION);
    assert_eq!(
        config.quran_bookmarks,
        vec![QuranBookmark { page: 8, surah_number: 2, verse: 1 }]
    );
    assert_eq!(config.quran_bookmark_surah_number, None);
    assert_eq!(config.quran_bookmark_page, None);
}

#[test]
fn migrated_config_is_not_rewritten() {
    let mut config = MigratableConfig {
        schema_version: CONFIG_SCHEMA_VERSION,
        favorites: Vec::new(),
        quran_bookmark_surah_number: None,
        quran_bookmark_page: None,
        quran_bookmarks: Vec::new(),
    };
    config.quran_bookmarks.push(QuranBookmark { page: 42, surah_number: 29, verse: 1 });

    assert!(!migrate(&mut config, &empty_source()), "current schema must be a no-op");
    assert_eq!(config.quran_bookmarks.len(), 1);
}

#[test]
fn test_default_time_format() {
    assert_eq!(TimeFormat::default(), TimeFormat::Auto);
}

#[test]
fn test_time_format_roundtrip() {
    let mut time_format = TimeFormat::default();
    assert_eq!(time_format, TimeFormat::Auto);

    time_format = TimeFormat::Hours12;
    assert_eq!(time_format, TimeFormat::Hours12);

    time_format = TimeFormat::Hours24;
    assert_eq!(time_format, TimeFormat::Hours24);

    time_format = TimeFormat::Auto;
    assert_eq!(time_format, TimeFormat::Auto);
}

#[test]
fn bookmarks_are_ordered_by_page_keeping_the_first_of_each_page() {
    let list = vec![
        QuranBookmark { page: 50, surah_number: 3, verse: 1 },
        QuranBookmark { page: 8, surah_number: 2, verse: 4 },
        QuranBookmark { page: 50, surah_number: 3, verse: 9 },
        QuranBookmark { page: 8, surah_number: 2, verse: 1 },
        QuranBookmark { page: 1, surah_number: 1, verse: 1 },
    ];
    assert_eq!(
        normalise_bookmarks(&list),
        vec![
            QuranBookmark { page: 1, surah_number: 1, verse: 1 },
            QuranBookmark { page: 8, surah_number: 2, verse: 4 },
            QuranBookmark { page: 50, surah_number: 3, verse: 1 },
        ]
    );
}

#[test]
fn legacy_bookmark_on_a_new_page_joins_the_list_in_order() {
    let mut config = MigratableConfig {
        schema_version: 0,
        favorites: vec!["سبحان الله".to_string(), "night-01".to_string()],
        quran_bookmark_surah_number: Some(18),
        quran_bookmark_page: Some(293),
        quran_bookmarks: vec![
            QuranBookmark { page: 400, surah_number: 25, verse: 3 },
            QuranBookmark { page: 2, surah_number: 2, verse: 1 },
        ],
    };
    let source = AdkarSet::from_list(vec![
        dikr("morning-07", DikrCategory::Morning, " سبحان الله "),
        dikr("evening-07", DikrCategory::Evening, "سبحان الله"),
        dikr("night-01", DikrCategory::Night, "آية الكرسي"),
    ]);
    assert!(migrate(&mut config, &source));
    assert_eq!(
        config.quran_bookmarks,
        vec![
            QuranBookmark { page: 2, surah_number: 2, verse: 1 },
            QuranBookmark { page: 293, surah_number: 18, verse: 1 },
            QuranBookmark { page: 400, surah_number: 25, verse: 3 },
        ]
    );
    assert_eq!(config.favorites, vec!["morning-07", "evening-07", "night-01"]);
}

#[test]
fn installing_a_reciter_twice_keeps_one_entry() {
    let mut list = vec!["alafasy".to_string()];
    add_installed_reciter(&mut list, "husary");
    add_installed_reciter(&mut list, "husary");
    add_installed_reciter(&mut list, "alafasy");
    assert_eq!(list, vec!["alafasy".to_string(), "husary".to_string()]);
}

#[test]
fn removing_a_reciter_drops_every_copy_and_keeps_order() {
    let mut list = vec![
        "a".to_string(),
        "husary".to_string(),
        "b".to_string(),
        "husary".to_string(),
    ];
    remove_installed_reciter(&mut list, "husary");
    assert_eq!(list, vec!["a".to_string(), "b".to_string()]);
    remove_installed_reciter(&mut list, "missing");
    assert_eq!(list, vec!["a".to_string(), "b".to_string()]);
}

#[test]
fn install_then_remove_restores_the_list() {
    let original = vec!["a".to_string(), "b".to_string()];
    let mut list = original.clone();
    add_installed_reciter(&mut list, "c");
    remove_installed_reciter(&mut list, "c");
    assert_eq!(list, original);
}

#[test]
fn migrating_twice_changes_nothing_the_second_time() {
    let mut config = MigratableConfig {
        schema_version: 0,
        favorites: vec!["x".to_string()],
        quran_bookmark_surah_number: Some(3),
        quran_bookmark_page: Some(50),
        quran_bookmarks: vec![QuranBookmark { page: 60, surah_number: 3, verse: 9 }],
    };
    assert!(migrate(&mut config, &empty_source()));
    let once = config.clone();
    assert!(!migrate(&mut config, &empty_source()));
    assert_eq!(config, once);
}

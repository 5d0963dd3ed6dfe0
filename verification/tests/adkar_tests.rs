use khushu::adkar::{expand_favorites, migrate_favorites, AdkarSet, Dikr, DikrCategory};

fn dikr(id: &str, category: DikrCategory, arabic: &str) -> Dikr {
    Dikr {
        id: id.to_string(),
        category,
        count: 3,
        count_display: None,
        arabic: arabic.to_string(),
        translation: format!("translation of {id}"),
        reference: "Reference".to_string(),
    }
}

fn sample_set() -> AdkarSet {
    AdkarSet::from_list(vec![
        dikr("morning-01", DikrCategory::Morning, "أصبحنا وأصبح الملك لله"),
        dikr("evening-01", DikrCategory::Evening, "أمسينا وأمسى الملك لله"),
        dikr("morning-02", DikrCategory::Morning, "سبحان الله وبحمده"),
        dikr("night-01", DikrCategory::Night, "باسمك ربي وضعت جنبي"),
        dikr("morning-03", DikrCategory::Morning, "حسبي الله لا إله إلا هو"),
        dikr("evening-02", DikrCategory::Evening, "سبحان الله وبحمده"),
        dikr("morning-04", DikrCategory::Morning, "رضيت بالله ربا"),
    ])
}

#[test]
fn morning_adkar_have_correct_category() {
    let set = sample_set();
    let list = set.category(DikrCategory::Morning);
    assert_eq!(list.len(), 4);
    for d in list {
        assert_eq!(d.category, DikrCategory::Morning);
    }
}

#[test]
fn evening_adkar_have_correct_category() {
    let set = sample_set();
    for d in set.category(DikrCategory::Evening) {
        assert_eq!(d.category, DikrCategory::Evening);
    }
}

#[test]
fn night_adkar_have_correct_category() {
    let set = sample_set();
    for d in set.category(DikrCategory::Night) {
        assert_eq!(d.category, DikrCategory::Night);
    }
}

#[test]
fn random_morning_dikr_returns_some_when_data_exists() {
    let set = sample_set();
    let pick = set.daily_picks(DikrCategory::Morning, 1, &[]);
    assert!(!pick.is_empty(), "Random pick should return elements when data exists");
}

#[test]
fn daily_guarantees_slot_for_single_favorite() {
    let set = sample_set();
    let morning = set.category(DikrCategory::Morning);
    let fav_id = morning[0].id.clone();
    let favorites = vec![fav_id.clone()];
    for _ in 0..20 {
        let picks = set.daily_picks(DikrCategory::Morning, 2, &favorites);
        assert_eq!(picks.len(), 2, "daily must return exactly two picks");
        assert_ne!(picks[0].id, picks[1].id, "picks must be distinct");
        assert!(picks.iter().any(|d| d.id == fav_id), "single favorite must always occupy a daily slot");
    }
}

#[test]
fn daily_restricts_to_favorites_when_enough_exist() {
    let set = sample_set();
    let morning = set.category(DikrCategory::Morning);
    let fav_ids: Vec<String> = morning.iter().map(|d| d.id.clone()).collect();
    for _ in 0..20 {
        let picks = set.daily_picks(DikrCategory::Morning, 2, &fav_ids);
        assert_eq!(picks.len(), 2);
        assert!(picks.iter().all(|d| fav_ids.contains(&d.id)), "picks must come only from the favorited set");
    }
}

#[test]
fn daily_keeps_both_favorites_when_exactly_two_exist() {
    let set = sample_set();
    let morning = set.category(DikrCategory::Morning);
    let favorites = vec![morning[0].id.clone(), morning[1].id.clone()];
    for _ in 0..20 {
        let picks = set.daily_picks(DikrCategory::Morning, 2, &favorites);
        assert_eq!(picks.len(), 2);
        assert!(picks.iter().any(|d| d.id == favorites[0]), "first favorited dhikr must appear daily");
        assert!(picks.iter().any(|d| d.id == favorites[1]), "second favorited dhikr must appear daily");
    }
}

#[test]
fn migrate_favorites_expands_shared_dhikr_and_keeps_ids() {
    let source = sample_set();
    let all = source.iter_all();
    let shared_ids = vec!["morning-02".to_string(), "evening-02".to_string()];
    let shared_arabic = all.iter().find(|d| shared_ids.contains(&d.id)).unwrap().arabic.trim().to_string();

    let (out, changed) = expand_favorites(&[shared_arabic, "night-01".to_string()], &all);
    assert!(changed, "legacy favorites must report a change");
    assert_eq!(out.len(), 3, "shared dhikr expands to both ids plus night-01");
    assert!(out.contains(&"night-01".to_string()), "ids pass through untouched");
    for id in &shared_ids {
        assert!(out.contains(id), "expected expanded id {id}");
    }

    let (again, changed_again) = expand_favorites(&out, &all);
    assert!(!changed_again, "already-migrated favorites are a no-op");
    assert_eq!(again, out);
}

#[test]
fn small_sessions_are_picked_whole() {
    let set = sample_set();
    let picks = set.daily_picks(DikrCategory::Night, 3, &[]);
    assert_eq!(picks.len(), 1);
    assert_eq!(picks[0].id, "night-01");
}

#[test]
fn iter_all_goes_by_session() {
    let ids: Vec<String> = sample_set().iter_all().into_iter().map(|d| d.id).collect();
    assert_eq!(
        ids,
        vec!["morning-01", "morning-02", "morning-03", "morning-04", "evening-01", "evening-02", "night-01"]
    );
}

#[test]
fn migrating_favorites_rewrites_only_arabic_text() {
    let source = sample_set();
    let mut favorites = vec!["morning-01".to_string()];
    migrate_favorites(&mut favorites, &source);
    assert_eq!(favorites, vec!["morning-01"]);
    let mut legacy = vec!["  رضيت بالله ربا".to_string(), "رضيت بالله ربا".to_string()];
    migrate_favorites(&mut legacy, &source);
    assert_eq!(legacy, vec!["  رضيت بالله ربا", "morning-04"]);
}

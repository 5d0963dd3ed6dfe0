use khushu::mawaqit::{
    extract_braced_json_from, extract_object_candidates, find_embedded_payload, schedule_from_payload, MawaqitPayload,
    normalize_mawaqit_url, ScheduleError,
};

const PAGE: &str = r#"
        <html><body>
        {"times":["05:44","13:58","17:32","20:30","21:57"],"shuruq":"07:20","timezone":"Europe/Paris","calendar":[{"1":["07:05","08:44","12:59","14:48","17:08","18:35"]},{"1":["05:44","07:20","13:58","17:32","20:30","21:57"]}, {}, {}, {}, {}, {}, {}, {}, {}, {}, {}]}
        </body></html>
        "#;

#[test]
fn parses_payload_from_embedded_json() {
    let html = PAGE;
    let idx = html.find("\"times\":[").unwrap();
    let json = extract_braced_json_from(html, idx).expect("extract json");
    let v: serde_json::Value = serde_json::from_str(&json).unwrap();
    assert_eq!(v.get("timezone").and_then(|t| t.as_str()), Some("Europe/Paris"));
    assert_eq!(v.get("calendar").and_then(|c| c.as_array()).map(|c| c.len()), Some(12));
    assert!(json.starts_with('{') && json.ends_with('}'));
}

#[test]
fn candidates_list_every_marker_in_order() {
    let html = r#"x"times":[1] y "times":[2]"#;
    assert_eq!(extract_object_candidates(html), vec![1, 15]);
    assert_eq!(extract_object_candidates("no marker here"), Vec::<usize>::new());
}

#[test]
fn braces_inside_strings_do_not_count() {
    let html = r#"<p>{"times":["{"],"shuruq":"}","calendar":[]}</p>"#;
    let idx = html.find("\"times\":[").unwrap();
    assert_eq!(
        extract_braced_json_from(html, idx).as_deref(),
        Some(r#"{"times":["{"],"shuruq":"}","calendar":[]}"#)
    );
}

#[test]
fn objects_missing_a_member_are_skipped() {
    let html = r#"{"times":[],"calendar":[]}"#;
    assert_eq!(extract_braced_json_from(html, 1), None);
    assert_eq!(find_embedded_payload(html), None);
    assert!(find_embedded_payload(PAGE).is_some());
}

fn six(prefix: &str) -> Option<Vec<Option<String>>> {
    Some((0..6).map(|i| Some(format!("{prefix}{i}"))).collect())
}

fn payload(calendar: Option<Vec<Option<Vec<(String, Option<Vec<Option<String>>>)>>>>) -> MawaqitPayload {
    MawaqitPayload {
        times: Some(vec![
            Some("05:10".to_string()),
            Some("12:30".to_string()),
            Some("15:45".to_string()),
            Some("18:20".to_string()),
            None,
        ]),
        shuruq: Some("06:40".to_string()),
        timezone: Some("Africa/Algiers".to_string()),
        name: None,
        label: Some("Grande Mosquée".to_string()),
        country_code: Some("DZ".to_string()),
        calendar,
    }
}

#[test]
fn schedule_needs_five_times_and_sunrise() {
    let mut p = payload(None);
    p.times = None;
    assert_eq!(schedule_from_payload(&p, 0, 1).err(), Some(ScheduleError::FetchFailed));
    let mut q = payload(None);
    q.times = Some(vec![Some("05:10".to_string())]);
    assert_eq!(schedule_from_payload(&q, 0, 1).err(), Some(ScheduleError::FetchFailed));
    let mut r = payload(None);
    r.shuruq = None;
    assert_eq!(schedule_from_payload(&r, 0, 1).err(), Some(ScheduleError::FetchFailed));
}

#[test]
fn schedule_without_calendar_keeps_today() {
    let s = schedule_from_payload(&payload(None), 2, 14).unwrap();
    assert_eq!(s.mosque_name.as_deref(), Some("Grande Mosquée"));
    assert_eq!(s.timezone.as_deref(), Some("Africa/Algiers"));
    assert_eq!(s.months.len(), 12);
    assert!(s.months[0].is_empty());
    assert_eq!(s.months[2].len(), 1);
    assert_eq!(s.months[2][&14], vec!["05:10", "06:40", "12:30", "15:45", "18:20", ""]);
}

#[test]
fn calendar_days_are_read_and_bad_ones_skipped() {
    let mut months: Vec<Option<Vec<(String, Option<Vec<Option<String>>>)>>> = vec![Some(vec![]); 12];
    months[0] = Some(vec![
        ("1".to_string(), six("a")),
        ("x".to_string(), six("b")),
        ("2".to_string(), Some(vec![Some("only".to_string())])),
        ("3".to_string(), Some(vec![Some("a".to_string()), None, Some("c".to_string()), Some("d".to_string()), Some("e".to_string()), Some("f".to_string())])),
        ("4".to_string(), None),
    ]);
    months[5] = None;
    let mut p = payload(Some(months));
    p.name = Some("Masjid".to_string());
    let s = schedule_from_payload(&p, 0, 1).unwrap();
    assert_eq!(s.mosque_name.as_deref(), Some("Masjid"));
    assert_eq!(s.months[0].len(), 1);
    assert_eq!(s.months[0][&1][5], "a5");
    assert!(s.months[5].is_empty());
    let today_missing = schedule_from_payload(&p, 0, 9).unwrap();
    assert_eq!(today_missing.months[0].len(), 2);
    assert!(today_missing.months[0].contains_key(&9));
}

#[test]
fn a_later_entry_for_a_day_replaces_an_earlier_one() {
    let mut months: Vec<Option<Vec<(String, Option<Vec<Option<String>>>)>>> = vec![Some(vec![]); 12];
    months[3] = Some(vec![("7".to_string(), six("a")), ("7".to_string(), six("b"))]);
    let s = schedule_from_payload(&payload(Some(months)), 0, 1).unwrap();
    assert_eq!(s.months[3].len(), 1);
    assert_eq!(s.months[3][&7][0], "b0");
}

#[test]
fn mosque_addresses_are_normalized() {
    assert_eq!(
        normalize_mawaqit_url("  mawaqit.net/fr/grande-mosquee-de-paris?lang=fr#top ").as_deref(),
        Ok("https://mawaqit.net/fr/grande-mosquee-de-paris")
    );
    assert_eq!(normalize_mawaqit_url("http://www.mawaqit.net/en/m").as_deref(), Ok("http://www.mawaqit.net/en/m"));
    assert_eq!(normalize_mawaqit_url("https://example.com/x"), Err("Invalid Mawaqit URL".to_string()));
    assert_eq!(normalize_mawaqit_url("https://evilmawaqit.net/x"), Err("Invalid Mawaqit URL".to_string()));
    assert_eq!(normalize_mawaqit_url("   "), Err("Invalid Mawaqit URL".to_string()));
    assert_eq!(normalize_mawaqit_url("http://"), Err("Invalid Mawaqit URL".to_string()));
}

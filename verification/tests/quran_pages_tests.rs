use khushu::config::StopCondition;
use khushu::quran_pages::{page_layout, sort_markers, LayoutItem, BISMILLAH};
use khushu::quran_pages::{
    compute_stop_boundary, compute_verse_boundaries, find_verse_at_offset, get_page_verses, get_surah_for_page,
    get_verse_page, hizb_and_quarter, is_verse_on_page, marker_id_for_page, next_verse_on_page_or_next,
    page_label_text, page_markers_for_page, page_positions, MarkerEntry, PageIndex, PageMarkers, PageVerse,
    SurahText, VersePos, VerseText,
};

fn pos(surah: u32, verse: u32) -> VersePos {
    VersePos { surah, verse }
}

/// Two surahs (7 and 5 verses) over three pages: 1:1, 1:5 and 2:1 open them.
fn sample_index() -> PageIndex {
    PageIndex {
        page_starts: vec![Some(pos(1, 1)), Some(pos(1, 5)), Some(pos(2, 1))],
        surah_verse_counts: vec![7, 5],
        total_pages: 3,
    }
}

fn sample_texts() -> Vec<SurahText> {
    let surah = |id: u32, n: u32| SurahText {
        id,
        verses: (1..=n).map(|v| VerseText { id: v, text: format!("s{id}v{v}") }).collect(),
    };
    vec![surah(1, 7), surah(2, 5)]
}

fn marker(surah: u32, verse: u32, id: u32) -> MarkerEntry {
    MarkerEntry { surah, verse, id }
}

/// Juz 1 covers 1:1 to 2:3, juz 2 the rest.
fn juz_entries() -> Vec<MarkerEntry> {
    let mut out = Vec::new();
    for v in 1..=7 {
        out.push(marker(1, v, 1));
    }
    for v in 1..=5 {
        out.push(marker(2, v, if v <= 3 { 1 } else { 2 }));
    }
    out
}

#[test]
fn verses_map_to_their_pages() {
    let index = sample_index();
    assert_eq!(get_verse_page(&index, 1, 1), Some(1));
    assert_eq!(get_verse_page(&index, 1, 4), Some(1));
    assert_eq!(get_verse_page(&index, 1, 5), Some(2));
    assert_eq!(get_verse_page(&index, 1, 7), Some(2));
    assert_eq!(get_verse_page(&index, 2, 3), Some(3));
    assert_eq!(get_verse_page(&index, 0, 9), None);
}

#[test]
fn page_positions_walk_across_surahs() {
    let index = PageIndex {
        page_starts: vec![Some(pos(1, 6)), Some(pos(2, 3))],
        surah_verse_counts: vec![7, 5],
        total_pages: 2,
    };
    let first = page_positions(&index, 1).unwrap();
    assert_eq!(first, vec![pos(1, 6), pos(1, 7), pos(2, 1), pos(2, 2)]);
    assert!(page_positions(&index, 3).is_none());
}

#[test]
fn page_verses_carry_their_texts() {
    let index = sample_index();
    let texts = sample_texts();
    let verses: Vec<PageVerse> = get_page_verses(&index, &texts, 2).unwrap();
    let got: Vec<(u32, u32, String)> = verses.iter().map(|v| (v.surah_num, v.verse, v.content.clone())).collect();
    assert_eq!(
        got,
        vec![(1, 5, "s1v5".to_string()), (1, 6, "s1v6".to_string()), (1, 7, "s1v7".to_string())]
    );
    assert!(get_page_verses(&index, &texts, 4).is_none());
    assert_eq!(get_surah_for_page(&index, &texts, 3), 2);
    assert_eq!(get_surah_for_page(&index, &texts, 9), 1);
    assert!(is_verse_on_page(&index, &texts, 1, 6, 2));
    assert!(!is_verse_on_page(&index, &texts, 1, 4, 2));
}

#[test]
fn next_verse_moves_on_to_the_next_page() {
    let index = sample_index();
    let texts = sample_texts();
    assert_eq!(next_verse_on_page_or_next(&index, &texts, 1, 2), Some((1, 3)));
    assert_eq!(next_verse_on_page_or_next(&index, &texts, 1, 4), Some((1, 5)));
    assert_eq!(next_verse_on_page_or_next(&index, &texts, 1, 7), Some((2, 1)));
    assert_eq!(next_verse_on_page_or_next(&index, &texts, 2, 5), None);
}

#[test]
fn recitation_stops_where_the_condition_says() {
    let index = sample_index();
    let texts = sample_texts();
    let juz = juz_entries();
    let totals = vec![(1, 7), (2, 5)];
    let stop = |s: u32, v: u32, c: StopCondition| compute_stop_boundary(&index, &texts, &juz, &totals, s, v, c);
    assert_eq!(stop(1, 2, StopCondition::Unlimited), None);
    assert_eq!(stop(1, 2, StopCondition::Ayah), Some((1, 2)));
    assert_eq!(stop(1, 2, StopCondition::Page), Some((1, 4)));
    assert_eq!(stop(1, 6, StopCondition::Juz), Some((2, 3)));
    assert_eq!(stop(2, 4, StopCondition::Juz), Some((2, 5)));
    assert_eq!(stop(2, 3, StopCondition::Surah), Some((2, 5)));
    assert_eq!(stop(3, 1, StopCondition::Surah), None);
}

#[test]
fn page_markers_from_verses_or_the_list() {
    let index = sample_index();
    let texts = sample_texts();
    let juz = juz_entries();
    let juz_list = vec![marker(1, 1, 1), marker(2, 4, 2)];
    assert_eq!(marker_id_for_page(&index, &texts, &juz, &juz_list, 3), Some(2));
    assert_eq!(marker_id_for_page(&index, &texts, &juz_list, &juz_list, 2), Some(1));
    assert_eq!(marker_id_for_page(&index, &texts, &juz_list, &juz_list, 7), None);
    let hizb = vec![marker(1, 1, 1), marker(2, 1, 6)];
    let markers: PageMarkers = page_markers_for_page(&index, &texts, &juz, &juz_list, &hizb, &hizb, 3);
    assert_eq!(markers, PageMarkers { juz: Some(2), hizb: Some(2), quarter: Some(2) });
    let none = page_markers_for_page(&index, &texts, &[], &[], &[], &[], 2);
    assert_eq!(none, PageMarkers { juz: None, hizb: None, quarter: None });
}

#[test]
fn hizb_quarters_count_from_one() {
    assert_eq!(hizb_and_quarter(1), (1, 1));
    assert_eq!(hizb_and_quarter(8), (2, 4));
    assert_eq!(hizb_and_quarter(9), (3, 1));
    assert_eq!(hizb_and_quarter(240), (60, 4));
}

#[test]
fn clicks_find_the_verse_under_them() {
    let verses = vec![
        PageVerse { verse: 5, surah_num: 1, content: "ab".to_string() },
        PageVerse { verse: 12, surah_num: 1, content: "ثم".to_string() },
    ];
    let spans = compute_verse_boundaries(&verses);
    assert_eq!((spans[0].byte_start, spans[0].byte_end), (0, 11));
    assert_eq!((spans[1].byte_start, spans[1].byte_end), (12, 27));
    assert_eq!(find_verse_at_offset(3, &spans), Some((1, 5)));
    assert_eq!(find_verse_at_offset(11, &spans), None);
    assert_eq!(find_verse_at_offset(20, &spans), Some((1, 12)));
    assert_eq!(find_verse_at_offset(27, &spans), None);
}

#[test]
fn page_label_shows_page_of_total() {
    assert_eq!(page_label_text(5, 604), "page 5 / 604");
}

#[test]
fn bismillah_is_clean() {
    assert!(!BISMILLAH.contains('*'));
    assert!(!BISMILLAH.contains('<'));
    assert!(!BISMILLAH.contains('>'));
}

#[test]
fn page_layout_opens_surahs_with_header_and_bismillah() {
    let v = |surah_num: u32, verse: u32| PageVerse { verse, surah_num, content: String::new() };
    let layout = page_layout(&[v(8, 75), v(9, 1), v(9, 2), v(10, 1)]);
    assert_eq!(
        layout,
        vec![
            LayoutItem::Verse(8, 75),
            LayoutItem::Header(9),
            LayoutItem::Verse(9, 1),
            LayoutItem::Verse(9, 2),
            LayoutItem::Header(10),
            LayoutItem::Bismillah(10),
            LayoutItem::Verse(10, 1),
        ]
    );
    let fatiha = page_layout(&[v(1, 1), v(1, 2)]);
    assert_eq!(fatiha, vec![LayoutItem::Header(1), LayoutItem::Verse(1, 1), LayoutItem::Verse(1, 2)]);
    assert!(page_layout(&[]).is_empty());
}

#[test]
fn marker_lists_sort_by_verse_stably() {
    let sorted = sort_markers(vec![marker(2, 4, 3), marker(1, 1, 1), marker(2, 4, 2), marker(1, 9, 5)]);
    assert_eq!(sorted, vec![marker(1, 1, 1), marker(1, 9, 5), marker(2, 4, 3), marker(2, 4, 2)]);
}

#[test]
fn page_indicator_is_global_only() {
    let text = page_label_text(106, 604);
    assert!(!text.contains("•"));
}

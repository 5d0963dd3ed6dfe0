use khushu::quran_text::{
    bookmark_title, surah_header_arabic, surah_header_names, surah_row_subtitle, surah_row_title,
    surah_type_label, SurahListItem, SurahMeta,
};
use khushu::quran_text::{
    assemble_arabic_edition, build_normalized_index, get_arabic_text, get_surah, get_surah_display_list,
    get_surah_list, get_verse, search_quran, surah_meta, surah_total_verses, total_quran_verses, ArabicVerse,
    SurahInfo, TranslationSurah, Verse,
};

fn verse(id: u32, text: &str, translation: &str) -> Verse {
    Verse { id, text: text.to_string(), translation: translation.to_string() }
}

fn surah(id: u32, name: &str, translation: &str, verses: Vec<Verse>) -> TranslationSurah {
    TranslationSurah {
        id,
        name: name.to_string(),
        transliteration: format!("Surah-{id}"),
        translation: translation.to_string(),
        surah_type: "meccan".to_string(),
        total_verses: verses.len() as u32,
        verses,
    }
}

fn english() -> Vec<TranslationSurah> {
    vec![
        surah(
            1,
            "الفاتحة",
            "The Opener",
            vec![
                verse(1, "بِسْمِ ٱللَّهِ ٱلرَّحْمَـٰنِ ٱلرَّحِيمِ", "In the Name of Allah, the Most Merciful"),
                verse(2, "ٱلْحَمْدُ لِلَّهِ رَبِّ ٱلْعَـٰلَمِينَ", "All praise is for Allah, Lord of all worlds"),
            ],
        ),
        surah(
            112,
            "الإخلاص",
            "Sincerity",
            vec![verse(1, "قُلْ هُوَ ٱللَّهُ أَحَدٌ", "Say, He is Allah, the One")],
        ),
    ]
}

fn arabic() -> Vec<TranslationSurah> {
    english()
        .into_iter()
        .map(|mut s| {
            s.translation = String::new();
            for v in s.verses.iter_mut() {
                v.translation = String::new();
            }
            s
        })
        .collect()
}

fn info(id: u32, name: &str, translit: &str, total: u32) -> SurahInfo {
    SurahInfo {
        id,
        name: name.to_string(),
        transliteration: translit.to_string(),
        surah_type: "medinan".to_string(),
        total_verses: total,
    }
}

#[test]
fn lookups_find_surahs_and_verses() {
    let q = english();
    let s = get_surah(&q, 112).unwrap();
    assert_eq!(s.translation, "Sincerity");
    assert_eq!(s.verses.len(), 1);
    assert!(get_surah(&q, 2).is_none());
    assert_eq!(get_verse(&q, 1, 2).unwrap().translation, "All praise is for Allah, Lord of all worlds");
    assert!(get_verse(&q, 1, 3).is_none());
    assert_eq!(get_arabic_text(&arabic(), 112, 1).as_deref(), Some("قُلْ هُوَ ٱللَّهُ أَحَدٌ"));
    let list = get_surah_list(&q);
    assert_eq!(list.len(), 2);
    assert_eq!((list[1].id, list[1].translation.as_str(), list[1].total_verses), (112, "Sincerity", 1));
}

#[test]
fn chapter_list_counts_and_names() {
    let chapters = vec![info(1, "الفاتحة", "Al-Fatihah", 7), info(2, "البقرة", "Al-Baqarah", 286)];
    assert_eq!(surah_total_verses(&chapters, 2), Some(286));
    assert_eq!(surah_total_verses(&chapters, 3), None);
    assert_eq!(total_quran_verses(&chapters), 293);
    assert_eq!(total_quran_verses(&[]), 0);
    let latin = get_surah_display_list(Some(&chapters), "en", "en_US.UTF-8");
    assert_eq!(latin, vec!["1. Al-Fatihah".to_string(), "2. Al-Baqarah".to_string()]);
    let arabic_names = get_surah_display_list(Some(&chapters), "ar", "en_US.UTF-8");
    assert_eq!(arabic_names[1], "2. البقرة");
    let fallback = get_surah_display_list(None, "en", "C");
    assert_eq!(fallback.len(), 114);
    assert_eq!(fallback[0], "Surah 1");
    assert_eq!(fallback[113], "Surah 114");
}

#[test]
fn surah_meta_combines_list_and_edition() {
    let chapters = vec![info(1, "الفاتحة", "Al-Fatihah", 7)];
    let q = english();
    let meta = surah_meta(&chapters, &q, 1, "en");
    assert_eq!(meta.arabic, "الفاتحة");
    assert_eq!(meta.transliteration, "Al-Fatihah");
    assert_eq!(meta.translated, "The Opener");
    assert_eq!(meta.surah_type, "medinan");
    let missing = surah_meta(&chapters, &q, 112, "en");
    assert_eq!(missing.arabic, "الإخلاص");
    assert_eq!(missing.transliteration, "");
    let in_arabic = surah_meta(&chapters, &q, 1, "ar");
    assert_eq!(in_arabic.translated, "");
}

#[test]
fn arabic_edition_is_sorted_and_named_from_the_list() {
    let entries = vec![
        ("112".to_string(), vec![ArabicVerse { verse: 1, text: "قل".to_string() }]),
        ("x".to_string(), vec![]),
        ("1".to_string(), vec![ArabicVerse { verse: 1, text: "بسم".to_string() }, ArabicVerse { verse: 2, text: "الحمد".to_string() }]),
    ];
    let chapters = vec![info(1, "الفاتحة", "Al-Fatihah", 7)];
    let edition = assemble_arabic_edition(entries, &chapters);
    assert_eq!(edition.len(), 2);
    assert_eq!(edition[0].id, 1);
    assert_eq!(edition[0].name, "الفاتحة");
    assert_eq!(edition[0].total_verses, 7);
    assert_eq!(edition[0].verses[1].text, "الحمد");
    assert_eq!(edition[1].id, 112);
    assert_eq!(edition[1].surah_type, "meccan");
    assert_eq!(edition[1].total_verses, 1);
    assert_eq!(edition[1].name, "");
}

#[test]
fn translation_search_is_case_insensitive_and_ordered() {
    let q = english();
    let index = build_normalized_index(&arabic());
    let found = search_quran("ALLAH", "en", &q, &index);
    let ids: Vec<(u32, u32)> = found.iter().map(|m| (m.surah_id, m.verse_id)).collect();
    assert_eq!(ids, vec![(1, 1), (1, 2), (112, 1)]);
    assert_eq!(found[2].surah_translation, "Sincerity");
    assert!(search_quran("", "en", &q, &index).is_empty());
    assert!(search_quran("zebra", "en", &q, &index).is_empty());
}

#[test]
fn arabic_search_ignores_marks_and_letter_forms() {
    let q = english();
    let index = build_normalized_index(&arabic());
    let found = search_quran("الحمد", "en", &q, &index);
    assert_eq!(found.len(), 1);
    assert_eq!((found[0].surah_id, found[0].verse_id), (1, 2));
    assert_eq!(found[0].translation_text, "All praise is for Allah, Lord of all worlds");
    let in_arabic = search_quran("احد", "ar", &arabic(), &index);
    assert_eq!(in_arabic.len(), 1);
    assert_eq!(in_arabic[0].translation_text, "قُلْ هُوَ ٱللَّهُ أَحَدٌ");
}

#[test]
fn surah_rows_and_headers() {
    let item = SurahListItem {
        id: 1,
        name: "الفاتحة".to_string(),
        transliteration: "Al-Fatihah".to_string(),
        translation: "The Opener".to_string(),
        surah_type: "meccan".to_string(),
        total_verses: 7,
    };
    assert_eq!(surah_row_title(&item, "ar"), "الفاتحة");
    assert_eq!(surah_row_title(&item, "en"), "Al-Fatihah - The Opener");
    let bare = SurahListItem { name: String::new(), transliteration: String::new(), translation: String::new(), ..item.clone() };
    assert_eq!(surah_row_title(&bare, "en"), "Surah 1");
    assert_eq!(surah_row_subtitle(&item), "Meccan • 7 Verses");
    assert_eq!(surah_row_subtitle(&SurahListItem { surah_type: "medinan".to_string(), ..item }), "Medinan • 7 Verses");

    let meta = SurahMeta {
        arabic: " الفاتحة ".to_string(),
        transliteration: "Al-Fatihah".to_string(),
        translated: "  ".to_string(),
        surah_type: " Meccan ".to_string(),
    };
    assert_eq!(bookmark_title(&meta, "en"), " الفاتحة ");
    assert_eq!(surah_header_arabic(&meta), "﴿ الفاتحة ﴾");
    assert_eq!(surah_header_names(&meta).as_deref(), Some("Al-Fatihah"));
    assert_eq!(surah_type_label(&meta.surah_type).as_deref(), Some("Meccan"));
    assert_eq!(surah_type_label("medinan").as_deref(), Some("Medinan"));
    assert_eq!(surah_type_label("  "), None);
    let named = SurahMeta { translated: "The Opener".to_string(), ..meta };
    assert_eq!(bookmark_title(&named, "en"), "The Opener");
    assert_eq!(bookmark_title(&named, "ar"), " الفاتحة ");
    assert_eq!(surah_header_names(&named).as_deref(), Some("The Opener • Al-Fatihah"));
}

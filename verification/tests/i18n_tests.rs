use khushu::i18n::{
    current_language_hint, detect_system_locale_from, icu_locale_key, is_arabic, is_rtl,
    language_code_from_index, language_index_from_code, locale_candidates,
    rebind_locale_after_adw_init, resolved_locale, select_translation, supported_language_code, tr, update_locale,
};

fn system() -> String {
    detect_system_locale_from(None, None)
}

#[test]
fn test_supported_language_code_normalizes_locale_values() {
    let sys = system();
    assert_eq!(supported_language_code("ar_SA.UTF-8", &sys), "ar");
    assert_eq!(supported_language_code("en_US", &sys), "en");
    assert_eq!(supported_language_code("fr_FR@latin", &sys), "fr");
    assert_eq!(supported_language_code("tr_TR:UTF-8", &sys), "tr");
    assert_eq!(supported_language_code("id", &sys), "id");
    assert_eq!(supported_language_code("es", &sys), "es");
    assert_eq!(supported_language_code("de", &sys), "en");
    assert_eq!(supported_language_code("", &sys), supported_language_code("auto", &sys));
    assert_eq!(supported_language_code("C", &sys), "en");

    let auto = supported_language_code("auto", &sys);
    assert!(
        ["ar", "en", "fr", "es", "tr", "id"].contains(&auto.as_str()),
        "auto must resolve to a supported code, got: {auto}"
    );
}

#[test]
fn test_resolved_locale_strips_suffixes_but_keeps_region() {
    let sys = system();
    assert_eq!(resolved_locale("en_US.UTF-8", &sys), "en_US");
    assert_eq!(resolved_locale("fr_FR@latin", &sys), "fr_FR");
    assert_eq!(resolved_locale("ar_SA", &sys), "ar_SA");
    assert_eq!(resolved_locale("  tr_TR:UTF-8 ", &sys), "tr_TR");
    assert_eq!(resolved_locale("en", &sys), "en");

    assert_eq!(resolved_locale("auto", &sys), sys);
    assert_eq!(resolved_locale("", &sys), sys);
}

#[test]
fn test_icu_locale_key_is_region_aware() {
    let sys = system();
    assert_eq!(icu_locale_key("ar_SA", &sys), "ar-SA");
    assert_eq!(icu_locale_key("en_US.UTF-8", &sys), "en-US");
    assert_eq!(icu_locale_key("fr_FR@latin", &sys), "fr-FR");
    assert_eq!(icu_locale_key("fr", &sys), "fr");
    assert_eq!(icu_locale_key("123_invalid", &sys), "en");
}

#[test]
fn test_is_rtl_only_for_arabic() {
    let sys = system();
    assert!(is_rtl("ar", &sys));
    assert!(is_rtl("ar_SA.UTF-8", &sys));
    assert!(!is_rtl("en", &sys));
    assert!(!is_rtl("en_US", &sys));
    assert!(!is_rtl("fr", &sys));
    assert!(!is_rtl("de", &sys));
}

#[test]
fn test_is_arabic_normalizes_before_comparing() {
    let sys = system();
    assert!(is_arabic("ar", &sys));
    assert!(is_arabic("ar_SA.UTF-8", &sys));
    assert!(is_arabic("ar-DZ", &sys));
    assert!(!is_arabic("en", &sys));
    assert!(!is_arabic("en_US", &sys));
    assert!(!is_arabic("fr_FR.UTF-8@latin", &sys));
    assert!(!is_arabic("tr", &sys));
}

#[test]
fn test_language_index_mapping_round_trips() {
    let codes = [("en", 1), ("ar", 2), ("fr", 3), ("es", 4), ("tr", 5), ("id", 6)];
    for (code, index) in codes {
        assert_eq!(language_index_from_code(code), index);
        assert_eq!(language_code_from_index(index), code);
    }
}

#[test]
fn test_language_index_mapping_falls_back_to_default() {
    assert_eq!(language_index_from_code("auto"), 0);
    assert_eq!(language_index_from_code("xx"), 0);
    assert_eq!(language_code_from_index(0), "auto");
    assert_eq!(language_code_from_index(99), "auto");
}

#[test]
fn system_locale_prefers_lc_all_then_lang_and_drops_charset() {
    assert_eq!(detect_system_locale_from(Some("fr_FR.UTF-8"), Some("de_DE")), "fr_FR");
    assert_eq!(detect_system_locale_from(Some("C"), Some("es_ES.UTF-8")), "es_ES");
    assert_eq!(detect_system_locale_from(Some(""), Some("POSIX")), "en");
    assert_eq!(detect_system_locale_from(None, None), "en");
}

#[test]
fn auto_language_binds_the_system_locale() {
    assert_eq!(update_locale("auto", "ar_DZ"), "ar_DZ");
    assert_eq!(update_locale("", "ar_DZ"), "ar_DZ");
    assert_eq!(update_locale("fr", "ar_DZ"), "fr");
}

#[test]
fn rebinding_uses_the_current_language_unless_it_is_auto() {
    assert_eq!(rebind_locale_after_adw_init(Some("tr"), "en_US"), "tr");
    assert_eq!(rebind_locale_after_adw_init(Some("auto"), "en_US"), "en_US");
    assert_eq!(rebind_locale_after_adw_init(Some(""), "en_US"), "en_US");
    assert_eq!(rebind_locale_after_adw_init(None, "en_US"), "en_US");
    assert_eq!(current_language_hint(Some("es"), "en_US"), "es");
}

#[test]
fn catalog_candidates_cover_separator_forms_and_base() {
    assert_eq!(locale_candidates("pt_BR.UTF-8"), vec!["pt_BR", "pt-BR", "pt"]);
    assert_eq!(locale_candidates("zh-CN"), vec!["zh-CN", "zh_CN", "zh"]);
    assert_eq!(locale_candidates("ar"), vec!["ar"]);
    assert_eq!(locale_candidates(""), vec!["en"]);
}

#[test]
fn untranslated_keys_come_back_unchanged() {
    assert_eq!(tr("A key with no translation at all"), "A key with no translation at all");
}

#[test]
fn the_first_catalog_that_translates_wins() {
    let s = |t: &str| Some(t.to_string());
    assert_eq!(select_translation("Quit", s("Quitter"), s("Beenden"), s("Salir")), "Quitter");
    assert_eq!(select_translation("Quit", s("Quit"), s("Beenden"), s("Salir")), "Beenden");
    assert_eq!(select_translation("Quit", None, s(""), s("Salir")), "Salir");
    assert_eq!(select_translation("Quit", None, None, s("Quit")), "Quit");
    assert_eq!(select_translation("Quit", None, None, None), "Quit");
}

#[test]
fn translator_credits_come_only_from_the_application_catalog() {
    let s = |t: &str| Some(t.to_string());
    assert_eq!(select_translation("translator-credits", s("Ali"), None, None), "Ali");
    assert_eq!(select_translation("translator-credits", None, s("X"), s("Y")), "Djalel Oukid");
    assert_eq!(select_translation("translator-credits", s("translator-credits"), None, None), "Djalel Oukid");
}

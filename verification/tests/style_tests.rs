use khushu::style::generate_font_css;

fn css_for(ui: Option<&str>, arabic: Option<&str>, quran: Option<&str>, arabic_px: f64, trans_px: f64, line_height: f64) -> String {
    generate_font_css(
        ui,
        arabic,
        quran,
        &arabic_px.to_string(),
        &trans_px.to_string(),
        &line_height.to_string(),
    )
}

#[test]
fn test_generate_font_css_system_defaults() {
    let css = css_for(None, None, None, 22.0, 14.0, 1.0);
    assert!(!css.contains("window { font-family:"));
    assert!(!css.contains(".arabic-text { font-family:"));
    assert!(css.contains(".quran-arabic { font-family: 'Amiri Quran', sans-serif;"));
    assert!(css.contains(".quran-arabic-caption { font-family: 'Amiri Quran', sans-serif;"));
}

#[test]
fn test_generate_font_css_custom_ui_font() {
    let css = css_for(Some("CustomFont"), None, None, 22.0, 14.0, 1.0);
    assert!(css.contains("window, popover.background { font-family: CustomFont, sans-serif;"));
    assert!(!css.contains(".arabic-text { font-family:"));
}

#[test]
fn test_generate_font_css_custom_arabic_font() {
    let css = css_for(None, Some("Amiri"), None, 22.0, 14.0, 1.0);
    assert!(!css.contains("window { font-family:"));
    assert!(css.contains(".arabic-text { font-family: Amiri, sans-serif;"));
}

#[test]
fn test_generate_font_css_custom_quran_font() {
    let css = css_for(None, None, Some("Uthmani"), 22.0, 14.0, 1.5);
    assert!(css.contains(".quran-arabic { font-family: Uthmani, sans-serif;"));
    assert!(css.contains(".quran-arabic-caption { font-family: Uthmani, sans-serif;"));
    assert!(css.contains("font-size: 22px"));
    assert!(css.contains("line-height: 1.5"));
    assert!(css.contains(".quran-translation { font-size: 14px"));
}

#[test]
fn test_generate_font_css_no_direction_rules() {
    let css = css_for(Some("A"), Some("B"), Some("C"), 22.0, 14.0, 1.0);
    assert!(!css.contains("direction:"));
    assert!(!css.contains("rtl"));
}

#[test]
fn empty_font_names_count_as_unset() {
    let css = css_for(Some(""), Some(""), Some(""), 22.0, 14.0, 1.0);
    assert!(!css.contains("window, popover.background"));
    assert!(!css.contains(".arabic-text"));
    assert!(css.contains(".quran-arabic { font-family: 'Amiri Quran', sans-serif; font-size: 22px; line-height: 1; }"));
}

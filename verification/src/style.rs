//! The style sheet that applies the user's font choices: the interface
//! font, the Arabic font and the Quran font with its sizes.
use vstd::prelude::*;
use vstd::string::*;

verus! {

/// A font family that was chosen: given and not empty.
pub open spec fn chosen_family(font: Option<Seq<char>>) -> Option<Seq<char>> {
    match font {
        Some(f) => if f.len() > 0 {
            Some(f)
        } else {
            None
        },
        None => None,
    }
}

/// The text of an optional string.
pub open spec fn opt_text(font: Option<&str>) -> Option<Seq<char>> {
    match font {
        Some(f) => Some(f@),
        None => None,
    }
}

/// The rule for a chosen family on `selector`, nothing where none was
/// chosen.
pub open spec fn family_rule(selector: Seq<char>, font: Option<Seq<char>>) -> Seq<char> {
    match chosen_family(font) {
        Some(f) => selector + " { font-family: "@ + f + ", sans-serif; }\n"@,
        None => Seq::empty(),
    }
}

/// The Quran font family: the chosen one, else Amiri Quran.
pub open spec fn quran_family(font: Option<Seq<char>>) -> Seq<char> {
    match chosen_family(font) {
        Some(f) => f,
        None => "'Amiri Quran'"@,
    }
}

/// The fixed rules of the Quran view, with the Quran family, the Arabic
/// and translation sizes (in pixels) and the line height filled in.
pub open spec fn quran_rules(family: Seq<char>, arabic_px: Seq<char>, trans_px: Seq<char>, line_height: Seq<char>) -> Seq<char> {
    ".marker-row { padding: 8px 12px; }\n.quran-highlight { background-color: alpha(@accent_bg_color, 0.25); border-radius: 12px; }\n.quran-highlight.quran-search-flash { animation-name: khushu-search-flash; animation-duration: 2s; }\n@keyframes khushu-search-flash { 0% { background-color: alpha(@accent_bg_color, 0.60); } 100% { background-color: alpha(@accent_bg_color, 0.25); } }\n.quran-arabic { font-family: "@
        + family + ", sans-serif; font-size: "@ + arabic_px + "px; line-height: "@ + line_height
        + "; }\n.quran-translation { font-size: "@ + trans_px + "px; line-height: "@ + line_height
        + "; }\n.quran-arabic-caption { font-family: "@ + family + ", sans-serif; }\n"@
}

/// The whole style sheet.
pub open spec fn font_css_spec(
    ui_font: Option<Seq<char>>,
    arabic_font: Option<Seq<char>>,
    quran_font: Option<Seq<char>>,
    arabic_px: Seq<char>,
    trans_px: Seq<char>,
    line_height: Seq<char>,
) -> Seq<char> {
    family_rule("window, popover.background"@, ui_font) + family_rule(".arabic-text"@, arabic_font)
        + quran_rules(quran_family(quran_font), arabic_px, trans_px, line_height)
}

fn push_family_rule(css: &mut String, selector: &str, font: Option<&str>)
    ensures
        final(css)@ == old(css)@ + family_rule(selector@, opt_text(font)),
{
    match font {
        Some(f) => {
            if !f.is_empty() {
                css.append(selector);
                css.append(" { font-family: ");
                css.append(f);
                css.append(", sans-serif; }\n");
            } else {
                proof {
                    assert(old(css)@ + Seq::<char>::empty() =~= old(css)@);
                }
            }
        },
        None => {
            proof {
                assert(old(css)@ + Seq::<char>::empty() =~= old(css)@);
            }
        },
    }
}

/// The style sheet for the chosen fonts. The sizes and the line height
/// come as the text they are shown with (`22`, `1.5`).
pub fn generate_font_css(
    ui_font: Option<&str>,
    arabic_font: Option<&str>,
    quran_font: Option<&str>,
    arabic_px: &str,
    trans_px: &str,
    line_height: &str,
) -> (css: String)
    ensures
        css@ == font_css_spec(opt_text(ui_font), opt_text(arabic_font), opt_text(quran_font), arabic_px@, trans_px@, line_height@),
{
    let mut css = String::new();
    push_family_rule(&mut css, "window, popover.background", ui_font);
    push_family_rule(&mut css, ".arabic-text", arabic_font);
    let family: &str = match quran_font {
        Some(f) => if !f.is_empty() {
            f
        } else {
            "'Amiri Quran'"
        },
        None => "'Amiri Quran'",
    };
    let ghost head = css@;
    css.append(".marker-row { padding: 8px 12px; }\n.quran-highlight { background-color: alpha(@accent_bg_color, 0.25); border-radius: 12px; }\n.quran-highlight.quran-search-flash { animation-name: khushu-search-flash; animation-duration: 2s; }\n@keyframes khushu-search-flash { 0% { background-color: alpha(@accent_bg_color, 0.60); } 100% { background-color: alpha(@accent_bg_color, 0.25); } }\n.quran-arabic { font-family: ");
    css.append(family);
    css.append(", sans-serif; font-size: ");
    css.append(arabic_px);
    css.append("px; line-height: ");
    css.append(line_height);
    css.append("; }\n.quran-translation { font-size: ");
    css.append(trans_px);
    css.append("px; line-height: ");
    css.append(line_height);
    css.append("; }\n.quran-arabic-caption { font-family: ");
    css.append(family);
    css.append(", sans-serif; }\n");
    proof {
        assert(family@ == quran_family(opt_text(quran_font)));
        assert(css@ =~= head + quran_rules(family@, arabic_px@, trans_px@, line_height@));
    }
    css
}

} // verus!

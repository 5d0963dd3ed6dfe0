//! Locale handling: normalising stored locale values, mapping them to the
//! supported interface languages, and looking up translations.
use icu_locale::{LanguageIdentifier, Locale};
use vstd::prelude::*;
use crate::text;

verus! {

// ── Character-sequence helpers ────────────────────────────────────────────
/// Index of the first `c` in `s`, or `s.len()` when there is none.
pub open spec fn first_index_of(s: Seq<char>, c: char) -> int
    decreases s.len(),
{
    if s.len() == 0 {
        0
    } else if s[0] == c {
        0
    } else {
        1 + first_index_of(s.drop_first(), c)
    }
}

/// The part of `s` before its first `c` (`split(c).next()`).
pub open spec fn before_first(s: Seq<char>, c: char) -> Seq<char> {
    s.take(first_index_of(s, c))
}

/// `s` with every `from` replaced by `to`.
pub open spec fn replace_char(s: Seq<char>, from: char, to: char) -> Seq<char> {
    s.map_values(|x: char| if x == from { to } else { x })
}

proof fn lemma_first_index_of(s: Seq<char>, c: char, i: int)
    requires
        0 <= i <= s.len(),
        forall|k: int| 0 <= k < i ==> s[k] != c,
        i == s.len() || s[i] == c,
    ensures
        first_index_of(s, c) == i,
    decreases i,
{
    if i > 0 {
        lemma_first_index_of(s.drop_first(), c, i - 1);
    }
}

/// Position of the first `c` in `s`, or `s.len()`.
pub fn find_char(s: &[char], c: char) -> (i: usize)
    ensures
        i == first_index_of(s@, c),
        i <= s@.len(),
        i < s@.len() ==> s@[i as int] == c,
        forall|k: int| 0 <= k < i ==> s@[k] != c,
{
    let mut i: usize = 0;
    while i < s.len() && s[i] != c
        invariant
            i <= s@.len(),
            forall|k: int| 0 <= k < i ==> s@[k] != c,
        decreases s@.len() - i,
    {
        i = i + 1;
    }
    proof {
        lemma_first_index_of(s@, c, i as int);
    }
    i
}

/// The characters of `s` before its first `c`.
pub fn take_before(s: &[char], c: char) -> (r: Vec<char>)
    ensures
        r@ == before_first(s@, c),
{
    let n = find_char(s, c);
    let mut r: Vec<char> = Vec::new();
    let mut i: usize = 0;
    while i < n
        invariant
            n <= s@.len(),
            i <= n,
            r@ == s@.take(i as int),
        decreases n - i,
    {
        r.push(s[i]);
        proof {
            assert(s@.take(i as int).push(s@[i as int]) =~= s@.take(i + 1));
        }
        i = i + 1;
    }
    r
}

/// The characters of `s` with `from` replaced by `to`.
pub fn replaced(s: &[char], from: char, to: char) -> (r: Vec<char>)
    ensures
        r@ == replace_char(s@, from, to),
{
    let mut r: Vec<char> = Vec::new();
    let mut i: usize = 0;
    while i < s.len()
        invariant
            i <= s@.len(),
            r@ == replace_char(s@.take(i as int), from, to),
        decreases s@.len() - i,
    {
        let x = s[i];
        r.push(if x == from {
            to
        } else {
            x
        });
        proof {
            assert(s@.take(i + 1) =~= s@.take(i as int).push(x));
            assert(replace_char(s@.take(i + 1), from, to) =~= replace_char(
                s@.take(i as int),
                from,
                to,
            ).push(if x == from { to } else { x }));
        }
        i = i + 1;
    }
    proof {
        assert(s@.take(s@.len() as int) =~= s@);
    }
    r
}

/// Whether `s` contains `c`.
pub fn has_char(s: &[char], c: char) -> (r: bool)
    ensures
        r == s@.contains(c),
{
    let n = find_char(s, c);
    proof {
        if n == s@.len() {
            assert(!s@.contains(c));
        } else {
            assert(s@[n as int] == c);
        }
    }
    n < s.len()
}

// ── Locale values ─────────────────────────────────────────────────────────
/// The interface languages the application is translated into.
pub open spec fn is_supported_language(code: Seq<char>) -> bool {
    ||| code == "ar"@
    ||| code == "en"@
    ||| code == "fr"@
    ||| code == "es"@
    ||| code == "tr"@
    ||| code == "id"@
}

/// Whether a stored language value asks for the system locale.
pub open spec fn is_auto(language: Seq<char>) -> bool {
    language == "auto"@ || language.len() == 0
}

/// A POSIX locale value without its charset (`ll_CC.UTF-8` → `ll_CC`), or
/// `None` when it is absent, empty, `C` or `POSIX`.
pub open spec fn usable_locale(value: Option<Seq<char>>) -> Option<Seq<char>> {
    match value {
        Some(v) => if v.len() == 0 || v == "C"@ || v == "POSIX"@ {
            None
        } else {
            Some(before_first(v, '.'))
        },
        None => None,
    }
}

/// The system locale from the values of `LC_ALL` and `LANG`: the first
/// usable one, else `"en"`.
pub open spec fn system_locale_text(lc_all: Option<Seq<char>>, lang: Option<Seq<char>>) -> Seq<
    char,
> {
    match usable_locale(lc_all) {
        Some(l) => l,
        None => match usable_locale(lang) {
            Some(l) => l,
            None => "en"@,
        },
    }
}

fn usable_locale_of(value: Option<&str>) -> (r: Option<String>)
    ensures
        match value {
            Some(v) => r matches Some(s) && usable_locale(Some(v@)) == Some(s@) || r is None
                && usable_locale(Some(v@)) is None,
            None => r is None,
        },
{
    match value {
        Some(v) => {
            if v.is_empty() || text::str_equal(v, "C") || text::str_equal(v, "POSIX") {
                None
            } else {
                let cs = text::chars_of(v);
                let head = take_before(cs.as_slice(), '.');
                Some(text::string_from_chars(head.as_slice()))
            }
        },
        None => None,
    }
}

/// Picks the system locale from the values of the `LC_ALL` and `LANG`
/// environment variables (read by the caller).
pub fn detect_system_locale_from(lc_all: Option<&str>, lang: Option<&str>) -> (r: String)
    ensures
        r@ == system_locale_text(
            match lc_all {
                Some(v) => Some(v@),
                None => None,
            },
            match lang {
                Some(v) => Some(v@),
                None => None,
            },
        ),
{
    match usable_locale_of(lc_all) {
        Some(l) => l,
        None => match usable_locale_of(lang) {
            Some(l) => l,
            None => text::to_owned_string("en"),
        },
    }
}

/// A stored locale value reduced to language and region: `"auto"` or empty
/// stands for `system_locale`; surrounding whitespace and any `:…`, `@…` and
/// `.…` suffixes are removed, region and underscores are kept.
pub open spec fn resolved_locale_text(language: Seq<char>, system_locale: Seq<char>) -> Seq<char> {
    let raw = if is_auto(language) {
        system_locale
    } else {
        language
    };
    before_first(before_first(before_first(text::trimmed(raw), ':'), '@'), '.')
}

/// The first `c` of `s` lies within `s`, and nothing before it is `c`.
proof fn lemma_first_index_bounds(s: Seq<char>, c: char)
    ensures
        0 <= first_index_of(s, c) <= s.len(),
        forall|k: int| 0 <= k < first_index_of(s, c) ==> s[k] != c,
    decreases s.len(),
{
    if s.len() > 0 && s[0] != c {
        lemma_first_index_bounds(s.drop_first(), c);
        assert forall|k: int| 0 <= k < first_index_of(s, c) implies s[k] != c by {
            if k > 0 {
                assert(s[k] == s.drop_first()[k - 1]);
            }
        }
    }
}

/// The part before the first `c` holds no `c`, nor anything `s` does not
/// hold; it is `s` itself where `s` holds no `c`.
proof fn lemma_before_first(s: Seq<char>, c: char, d: char)
    ensures
        !before_first(s, c).contains(c),
        !s.contains(d) ==> !before_first(s, c).contains(d),
        !s.contains(c) ==> before_first(s, c) == s,
{
    lemma_first_index_bounds(s, c);
    let b = before_first(s, c);
    assert forall|k: int| 0 <= k < b.len() implies b[k] != c && b[k] == s[k] by {}
    if !s.contains(d) {
        assert forall|k: int| 0 <= k < b.len() implies b[k] != d by {
            assert(s[k] == b[k]);
        }
    }
    if !s.contains(c) {
        lemma_first_index_of(s, c, s.len() as int);
        assert(b =~= s);
    }
}

/// A resolved locale holds none of ':', '@' and '.'; the empty value and
/// "auto" stand for the system locale; and a value already free of
/// whitespace around it and of those three characters is kept as it is,
/// region and underscores included.
pub proof fn lemma_resolved_locale_plain(language: Seq<char>, system_locale: Seq<char>)
    ensures
        ({
            let r = resolved_locale_text(language, system_locale);
            &&& !r.contains(':')
            &&& !r.contains('@')
            &&& !r.contains('.')
        }),
        is_auto(language) ==> resolved_locale_text(language, system_locale)
            == resolved_locale_text(system_locale, system_locale),
        ({
            let t = text::trimmed(if is_auto(language) { system_locale } else { language });
            !t.contains(':') && !t.contains('@') && !t.contains('.')
                ==> resolved_locale_text(language, system_locale) == t
        }),
{
    let t = text::trimmed(if is_auto(language) { system_locale } else { language });
    let a = before_first(t, ':');
    let b = before_first(a, '@');
    lemma_before_first(t, ':', '@');
    lemma_before_first(t, ':', '.');
    lemma_before_first(a, '@', ':');
    lemma_before_first(a, '@', '.');
    lemma_before_first(b, '.', ':');
    lemma_before_first(b, '.', '@');
}

fn resolved_chars(language: &str, system_locale: &str) -> (r: Vec<char>)
    ensures
        r@ == resolved_locale_text(language@, system_locale@),
{
    let raw = if text::str_equal(language, "auto") || language.is_empty() {
        system_locale
    } else {
        language
    };
    let cs = text::chars_of(raw);
    let t = text::trim_chars(cs.as_slice());
    let a = take_before(t.as_slice(), ':');
    let b = take_before(a.as_slice(), '@');
    take_before(b.as_slice(), '.')
}

/// Resolves a stored locale value to its plain language+region form;
/// `system_locale` is what `"auto"` and the empty value stand for.
pub fn resolved_locale(language: &str, system_locale: &str) -> (r: String)
    ensures
        r@ == resolved_locale_text(language@, system_locale@),
{
    let cs = resolved_chars(language, system_locale);
    text::string_from_chars(cs.as_slice())
}

/// The language subtag ICU4X's `LanguageIdentifier::try_from_str` finds in
/// `text`, or `None` where it rejects the text.
pub uninterp spec fn icu_language_subtag(text: Seq<char>) -> Option<Seq<char>>;

/// The canonical form ICU4X's `Locale` parser and `Display` give `text`, or
/// `None` where the parser rejects it.
pub uninterp spec fn icu_canonical_locale(text: Seq<char>) -> Option<Seq<char>>;

/// Parses `text` with `icu_locale::LanguageIdentifier::try_from_str` and
/// returns the language subtag. Claims only that the outcome is the named
/// result for this text.
#[verifier::external_body]
fn language_subtag(text: &str) -> (r: Option<String>)
    ensures
        r matches Some(s) ==> icu_language_subtag(text@) == Some(s@),
        r is None ==> icu_language_subtag(text@) is None,
{
    LanguageIdentifier::try_from_str(text).ok().map(|langid| langid.language.as_str().to_string())
}

/// Parses `text` as an `icu_locale::Locale` and renders it back with
/// `Display`. Claims only that the outcome is the named result.
#[verifier::external_body]
pub(crate) fn canonical_locale(text: &str) -> (r: Option<String>)
    ensures
        r matches Some(s) ==> icu_canonical_locale(text@) == Some(s@),
        r is None ==> icu_canonical_locale(text@) is None,
{
    text.parse::<Locale>().ok().map(|locale| locale.to_string())
}

/// The resolved locale in ICU's separator convention (`_` → `-`).
pub open spec fn icu_form(language: Seq<char>, system_locale: Seq<char>) -> Seq<char> {
    replace_char(resolved_locale_text(language, system_locale), '_', '-')
}

/// The language part of a locale value: ICU's language subtag when the
/// value parses, else the text before the first `-`.
pub open spec fn base_language(normalized: Seq<char>, subtag: Option<Seq<char>>) -> Seq<char> {
    match subtag {
        Some(l) => l,
        None => before_first(normalized, '-'),
    }
}

/// The interface language for `base`: itself when supported, else English.
pub open spec fn supported_or_english(base: Seq<char>) -> Seq<char> {
    if is_supported_language(base) {
        base
    } else {
        "en"@
    }
}

fn is_supported_code(code: &[char]) -> (r: bool)
    ensures
        r == is_supported_language(code@),
{
    let s = text::string_from_chars(code);
    let t = s.as_str();
    text::str_equal(t, "ar") || text::str_equal(t, "en") || text::str_equal(t, "fr")
        || text::str_equal(t, "es") || text::str_equal(t, "tr") || text::str_equal(t, "id")
}

/// The supported interface language for a stored locale value.
pub fn supported_language_code(language: &str, system_locale: &str) -> (r: String)
    ensures
        ({
            let normalized = icu_form(language@, system_locale@);
            r@ == supported_or_english(base_language(normalized, icu_language_subtag(normalized)))
        }),
{
    let resolved = resolved_chars(language, system_locale);
    let normalized = replaced(resolved.as_slice(), '_', '-');
    let normalized_text = text::string_from_chars(normalized.as_slice());
    let base: Vec<char> = match language_subtag(normalized_text.as_str()) {
        Some(l) => text::chars_of(l.as_str()),
        None => take_before(normalized.as_slice(), '-'),
    };
    if is_supported_code(base.as_slice()) {
        text::string_from_chars(base.as_slice())
    } else {
        text::to_owned_string("en")
    }
}

/// The ICU locale key for a stored locale value: the canonical form of the
/// whole value, else of its language part, else `"en"`.
pub open spec fn icu_locale_key_text(language: Seq<char>, system_locale: Seq<char>) -> Seq<char> {
    let normalized = icu_form(language, system_locale);
    match icu_canonical_locale(normalized) {
        Some(k) => k,
        None => match icu_canonical_locale(before_first(normalized, '-')) {
            Some(k) => k,
            None => "en"@,
        },
    }
}

/// The locale key ICU lookups use for a stored locale value.
pub fn icu_locale_key(language: &str, system_locale: &str) -> (r: String)
    ensures
        r@ == icu_locale_key_text(language@, system_locale@),
{
    let resolved = resolved_chars(language, system_locale);
    let normalized = replaced(resolved.as_slice(), '_', '-');
    let normalized_text = text::string_from_chars(normalized.as_slice());
    match canonical_locale(normalized_text.as_str()) {
        Some(k) => k,
        None => {
            let head = take_before(normalized.as_slice(), '-');
            let head_text = text::string_from_chars(head.as_slice());
            match canonical_locale(head_text.as_str()) {
                Some(k) => k,
                None => text::to_owned_string("en"),
            }
        },
    }
}

/// Whether the interface runs right to left for this locale value.
pub fn is_rtl(language: &str, system_locale: &str) -> (r: bool)
    ensures
        ({
            let normalized = icu_form(language@, system_locale@);
            r == (supported_or_english(base_language(normalized, icu_language_subtag(normalized)))
                == "ar"@)
        }),
{
    let code = supported_language_code(language, system_locale);
    text::str_equal(code.as_str(), "ar")
}

/// Whether this locale value selects Arabic.
pub fn is_arabic(language: &str, system_locale: &str) -> (r: bool)
    ensures
        ({
            let normalized = icu_form(language@, system_locale@);
            r == (supported_or_english(base_language(normalized, icu_language_subtag(normalized)))
                == "ar"@)
        }),
{
    let code = supported_language_code(language, system_locale);
    text::str_equal(code.as_str(), "ar")
}

/// The language that switching the interface to `language` binds: the
/// system locale for `"auto"` or the empty value, else the value itself.
/// The caller sets the environment and binds the catalogs to it.
pub fn update_locale(language: &str, system_locale: &str) -> (r: String)
    ensures
        r@ == (if is_auto(language@) {
            system_locale@
        } else {
            language@
        }),
{
    if text::str_equal(language, "auto") || language.is_empty() {
        text::to_owned_string(system_locale)
    } else {
        text::to_owned_string(language)
    }
}

/// The language to rebind to: the current application locale when one is
/// set and is not `"auto"`, else the system locale.
pub fn current_language_hint(current: Option<&str>, system_locale: &str) -> (r: String)
    ensures
        r@ == (match current {
            Some(c) => if c@.len() > 0 && c@ != "auto"@ {
                c@
            } else {
                system_locale@
            },
            None => system_locale@,
        }),
{
    match current {
        Some(c) => {
            if !c.is_empty() && !text::str_equal(c, "auto") {
                text::to_owned_string(c)
            } else {
                text::to_owned_string(system_locale)
            }
        },
        None => text::to_owned_string(system_locale),
    }
}

/// The language rebound once the toolkit is up: the current language hint.
pub fn rebind_locale_after_adw_init(current: Option<&str>, system_locale: &str) -> (r: String)
    ensures
        r@ == (match current {
            Some(c) => if c@.len() > 0 && c@ != "auto"@ {
                c@
            } else {
                system_locale@
            },
            None => system_locale@,
        }),
{
    current_language_hint(current, system_locale)
}

// ── Settings list of languages ────────────────────────────────────────────
/// Language codes of the settings list; row 0 is "System Default".
pub open spec fn spec_language_code_from_index(index: u32) -> Seq<char> {
    if index == 1 {
        "en"@
    } else if index == 2 {
        "ar"@
    } else if index == 3 {
        "fr"@
    } else if index == 4 {
        "es"@
    } else if index == 5 {
        "tr"@
    } else if index == 6 {
        "id"@
    } else {
        "auto"@
    }
}

/// Row of the settings list for a language code; 0 for anything else.
pub open spec fn spec_language_index_from_code(code: Seq<char>) -> u32 {
    if code == "en"@ {
        1
    } else if code == "ar"@ {
        2
    } else if code == "fr"@ {
        3
    } else if code == "es"@ {
        4
    } else if code == "tr"@ {
        5
    } else if code == "id"@ {
        6
    } else {
        0
    }
}

/// Index 0 is the "System Default" row, mapped to "auto".
pub fn language_code_from_index(index: u32) -> (code: &'static str)
    ensures
        code@ == spec_language_code_from_index(index),
{
    match index {
        1 => "en",
        2 => "ar",
        3 => "fr",
        4 => "es",
        5 => "tr",
        6 => "id",
        _ => "auto",
    }
}

/// Index 0 is the "System Default" row; codes start at 1.
pub fn language_index_from_code(code: &str) -> (index: u32)
    ensures
        index == spec_language_index_from_code(code@),
{
    if text::str_equal(code, "en") {
        1
    } else if text::str_equal(code, "ar") {
        2
    } else if text::str_equal(code, "fr") {
        3
    } else if text::str_equal(code, "es") {
        4
    } else if text::str_equal(code, "tr") {
        5
    } else if text::str_equal(code, "id") {
        6
    } else {
        0
    }
}

/// The settings list maps rows and codes both ways: every row 1..=6 comes
/// back from its code, every supported code comes back from its row, and
/// any other row stands for "auto".
pub proof fn lemma_language_index_round_trip(index: u32, code: Seq<char>)
    ensures
        1 <= index <= 6 ==> spec_language_index_from_code(spec_language_code_from_index(index))
            == index,
        is_supported_language(code) ==> spec_language_code_from_index(
            spec_language_index_from_code(code),
        ) == code,
        !(1 <= index <= 6) ==> spec_language_code_from_index(index) == "auto"@,
        spec_language_index_from_code("auto"@) == 0,
{
    reveal_strlit("en");
    reveal_strlit("ar");
    reveal_strlit("fr");
    reveal_strlit("es");
    reveal_strlit("tr");
    reveal_strlit("id");
    reveal_strlit("auto");
    assert("en"@[0] != "ar"@[0]);
    assert("en"@[0] != "fr"@[0]);
    assert("en"@[1] != "es"@[1]);
    assert("en"@[0] != "tr"@[0]);
    assert("en"@[0] != "id"@[0]);
    assert("en"@.len() != "auto"@.len());
    assert("ar"@[0] != "fr"@[0]);
    assert("ar"@[0] != "es"@[0]);
    assert("ar"@[0] != "tr"@[0]);
    assert("ar"@[0] != "id"@[0]);
    assert("ar"@.len() != "auto"@.len());
    assert("fr"@[0] != "es"@[0]);
    assert("fr"@[0] != "tr"@[0]);
    assert("fr"@[0] != "id"@[0]);
    assert("fr"@.len() != "auto"@.len());
    assert("es"@[0] != "tr"@[0]);
    assert("es"@[0] != "id"@[0]);
    assert("es"@.len() != "auto"@.len());
    assert("tr"@[0] != "id"@[0]);
    assert("tr"@.len() != "auto"@.len());
    assert("id"@.len() != "auto"@.len());
}

// ── Translations ──────────────────────────────────────────────────────────
/// A gettext domain whose messages gettext has been asked to hand back in
/// UTF-8. Only `bind_utf8_codeset` makes one, so a lookup through it always
/// follows a successful binding.
pub struct Utf8Domain {
    name: String,
}

/// Asks gettext to convert the messages of `domain` to UTF-8
/// (`gettextrs::bind_textdomain_codeset(domain, "UTF-8")`), as gettext-rs
/// documents that its lookups require. On success (the call gives back the
/// codeset now in force) returns the domain's handle; on an error, `None`.
/// `bind_textdomain_codeset` panics on an interior NUL, which `requires`
/// rules out; the codeset it gives back is the one passed, "UTF-8".
#[verifier::external_body]
fn bind_utf8_codeset(domain: &str) -> (r: Option<Utf8Domain>)
    requires
        !domain@.contains('\0'),
    ensures
        r matches Some(d) ==> d.name@ == domain@,
{
    match gettextrs::bind_textdomain_codeset(domain, "UTF-8") {
        Ok(Some(_)) => Some(Utf8Domain { name: domain.to_string() }),
        _ => None,
    }
}

/// Looks `key` up with gettext's `dgettext` in a domain bound to UTF-8
/// (`gettextrs::dgettext`). Nothing is claimed of the text: it depends on
/// the process locale and the installed catalogs. `dgettext` panics on an
/// interior NUL, which `requires` rules out, and on a result that is not
/// UTF-8, which the domain's UTF-8 binding rules out (gettext converts the
/// messages to the bound codeset).
#[verifier::external_body]
fn gettext_lookup(domain: &Utf8Domain, key: &str) -> (r: String)
    requires
        !domain.name@.contains('\0'),
        !key@.contains('\0'),
{
    gettextrs::dgettext(domain.name.as_str(), key)
}

/// One catalog lookup: the domain and the key handed to gettext, and the
/// text it gave (`None` where the domain could not be bound to UTF-8 and
/// was skipped).
pub struct CatalogText {
    pub domain: String,
    pub key: String,
    pub text: Option<String>,
}

/// The text of a lookup, as characters.
pub open spec fn lookup_text(l: Option<String>) -> Option<Seq<char>> {
    match l {
        Some(t) => Some(t@),
        None => None,
    }
}

/// Looks `key` up in `domain`, after binding the domain to UTF-8. Says what
/// was handed to gettext; what came back depends on the locale and the
/// installed catalogs.
pub fn lookup_in(domain: &str, key: &str) -> (r: CatalogText)
    requires
        !domain@.contains('\0'),
        !key@.contains('\0'),
    ensures
        r.domain@ == domain@,
        r.key@ == key@,
{
    let text = match bind_utf8_codeset(domain) {
        Some(d) => Some(gettext_lookup(&d, key)),
        None => None,
    };
    CatalogText { domain: text::to_owned_string(domain), key: text::to_owned_string(key), text }
}

/// A lookup result counts as a translation when it is non-empty and differs
/// from the key.
pub open spec fn is_translation(candidate: Seq<char>, key: Seq<char>) -> bool {
    candidate.len() > 0 && candidate != key
}

/// A lookup that gave a translation of `key`.
pub open spec fn answers(l: Option<Seq<char>>, key: Seq<char>) -> bool {
    l matches Some(t) && is_translation(t, key)
}

/// The text `tr` returns from the lookups of `key` in the application's
/// catalog (`app`), libadwaita's (`adwaita`) and GTK's (`gtk`): the first
/// that translates the key, in that order, else the key itself. For the
/// translator credits only the application's catalog counts, and the
/// fallback is the author's name.
pub open spec fn selected_text(
    key: Seq<char>,
    app: Option<Seq<char>>,
    adwaita: Option<Seq<char>>,
    gtk: Option<Seq<char>>,
) -> Seq<char> {
    if key == "translator-credits"@ {
        if answers(app, key) { app->0 } else { "Djalel Oukid"@ }
    } else if answers(app, key) {
        app->0
    } else if answers(adwaita, key) {
        adwaita->0
    } else if answers(gtk, key) {
        gtk->0
    } else {
        key
    }
}

fn accepts(candidate: &Option<String>, key: &str) -> (r: bool)
    ensures
        r == answers(lookup_text(*candidate), key@),
{
    match candidate {
        Some(c) => !c.as_str().is_empty() && !text::str_equal(c.as_str(), key),
        None => false,
    }
}

/// Picks the translation of `key` from the three catalogs' answers, as
/// `selected_text` says.
pub fn select_translation(key: &str, app: Option<String>, adwaita: Option<String>, gtk: Option<String>) -> (r: String)
    ensures
        r@ == selected_text(key@, lookup_text(app), lookup_text(adwaita), lookup_text(gtk)),
{
    proof {
        reveal_strlit("translator-credits");
        reveal_strlit("Djalel Oukid");
    }
    if text::str_equal(key, "translator-credits") {
        if accepts(&app, key) {
            return app.unwrap();
        }
        return text::to_owned_string("Djalel Oukid");
    }
    if accepts(&app, key) {
        app.unwrap()
    } else if accepts(&adwaita, key) {
        adwaita.unwrap()
    } else if accepts(&gtk, key) {
        gtk.unwrap()
    } else {
        text::to_owned_string(key)
    }
}

/// What any result of `tr` for `key` is, whatever the catalogs hold: a
/// translation, or the fallback (the key itself; the author's name for the
/// translator credits).
pub open spec fn is_tr_outcome(r: Seq<char>, key: Seq<char>) -> bool {
    if key == "translator-credits"@ {
        is_translation(r, key) || r == "Djalel Oukid"@
    } else {
        is_translation(r, key) || r == key
    }
}

/// Translates `key` from the catalogs "khushu", "libadwaita" and "gtk40",
/// asked in that order (each only while the ones before gave no
/// translation; the credits only from "khushu"), and picks the answer with
/// `select_translation`. Which text comes back depends on the locale and
/// the catalogs; it is always a translation or the fallback.
pub fn tr(key: &str) -> (r: String)
    requires
        !key@.contains('\0'),
    ensures
        is_tr_outcome(r@, key@),
        exists|app: Option<Seq<char>>, adwaita: Option<Seq<char>>, gtk: Option<Seq<char>>|
            r@ == #[trigger] selected_text(key@, app, adwaita, gtk),
{
    proof {
        reveal_strlit("khushu");
        reveal_strlit("libadwaita");
        reveal_strlit("gtk40");
        reveal_strlit("translator-credits");
    }
    let app = lookup_in("khushu", key);
    if text::str_equal(key, "translator-credits") || accepts(&app.text, key) {
        return select_translation(key, app.text, None, None);
    }
    let adwaita = lookup_in("libadwaita", key);
    if accepts(&adwaita.text, key) {
        return select_translation(key, app.text, adwaita.text, None);
    }
    let gtk = lookup_in("gtk40", key);
    select_translation(key, app.text, adwaita.text, gtk.text)
}

/// `text` is a text `tr` gives for `key`: the result of a call of `tr` with
/// that key.
pub open spec fn is_tr_of(text: Seq<char>, key: Seq<char>) -> bool {
    exists|k: &str, t: String| #![trigger call_ensures(tr, (k,), t)] k@ == key && t@ == text && call_ensures(tr, (k,), t)
}

/// A text `tr` gives for a key is a translation of it or the fallback.
pub proof fn lemma_tr_of_outcome(text: Seq<char>, key: Seq<char>)
    requires
        is_tr_of(text, key),
    ensures
        is_tr_outcome(text, key),
{
    let (k, t) = choose|k: &str, t: String| #![trigger call_ensures(tr, (k,), t)] k@ == key && t@ == text && call_ensures(tr, (k,), t);
}

/// Translates `key` with `tr` and says so: the result is a text `tr` gives
/// for `key`.
pub(crate) fn translate(key: &str) -> (r: String)
    requires
        !key@.contains('\0'),
    ensures
        is_tr_of(r@, key@),
        is_tr_outcome(r@, key@),
{
    let f = tr;
    let r = f(key);
    proof {
        assert(call_ensures(tr, (key,), r));
    }
    r
}

// ── Catalog candidates ────────────────────────────────────────────────────
/// A locale value without `:…`, `@…`, `.…` suffixes and whitespace.
pub open spec fn catalog_locale(language: Seq<char>) -> Seq<char> {
    text::trimmed(before_first(before_first(before_first(language, ':'), '@'), '.'))
}

/// Index of the first `-` or `_` in `s`, or `s.len()`.
pub open spec fn first_separator(s: Seq<char>) -> int
    decreases s.len(),
{
    if s.len() == 0 {
        0
    } else if s[0] == '-' || s[0] == '_' {
        0
    } else {
        1 + first_separator(s.drop_first())
    }
}

/// The catalog directory names tried for a locale value, most specific
/// first: the value itself, its other separator spelling, then its bare
/// language; `["en"]` for an empty value.
pub open spec fn locale_candidates_text(language: Seq<char>) -> Seq<Seq<char>> {
    let n = catalog_locale(language);
    if n.len() == 0 {
        seq!["en"@]
    } else {
        let with_alt = if n.contains('_') {
            seq![n, replace_char(n, '_', '-')]
        } else if n.contains('-') {
            seq![n, replace_char(n, '-', '_')]
        } else {
            seq![n]
        };
        let base = n.take(first_separator(n));
        if with_alt.contains(base) {
            with_alt
        } else {
            with_alt.push(base)
        }
    }
}

/// The catalog names tried for a locale value: one to three, without
/// repeats; `["en"]` for a value that is empty once cleaned; otherwise the
/// cleaned value comes first and its bare language is among them.
pub proof fn lemma_locale_candidates_shape(language: Seq<char>)
    ensures
        ({
            let c = locale_candidates_text(language);
            let n = catalog_locale(language);
            &&& 1 <= c.len() <= 3
            &&& c.no_duplicates()
            &&& n.len() == 0 ==> c == seq!["en"@]
            &&& n.len() > 0 ==> c[0] == n && c.contains(n.take(first_separator(n)))
        }),
{
    let n = catalog_locale(language);
    if n.len() > 0 {
        let with_alt = if n.contains('_') {
            seq![n, replace_char(n, '_', '-')]
        } else if n.contains('-') {
            seq![n, replace_char(n, '-', '_')]
        } else {
            seq![n]
        };
        if n.contains('_') {
            let k = choose|k: int| 0 <= k < n.len() && n[k] == '_';
            assert(replace_char(n, '_', '-')[k] == '-');
        } else if n.contains('-') {
            let k = choose|k: int| 0 <= k < n.len() && n[k] == '-';
            assert(replace_char(n, '-', '_')[k] == '_');
        }
        assert(with_alt.no_duplicates());
        let base = n.take(first_separator(n));
        if !with_alt.contains(base) {
            let c = with_alt.push(base);
            assert(c[c.len() - 1] == base);
            assert(c.no_duplicates()) by {
                assert forall|i: int, j: int| 0 <= i < c.len() && 0 <= j < c.len() && i != j
                    implies c[i] != c[j] by {
                    if i < with_alt.len() && j < with_alt.len() {
                        assert(with_alt[i] != with_alt[j]);
                    } else if i < with_alt.len() {
                        assert(with_alt[i] == c[i]);
                    } else {
                        assert(with_alt[j] == c[j]);
                    }
                }
            }
        }
    }
}

proof fn lemma_first_separator(s: Seq<char>, i: int)
    requires
        0 <= i <= s.len(),
        forall|k: int| 0 <= k < i ==> s[k] != '-' && s[k] != '_',
        i == s.len() || s[i] == '-' || s[i] == '_',
    ensures
        first_separator(s) == i,
    decreases i,
{
    if i > 0 {
        lemma_first_separator(s.drop_first(), i - 1);
    }
}

fn chars_in(list: &Vec<Vec<char>>, item: &Vec<char>) -> (r: bool)
    ensures
        r == list@.map_values(|v: Vec<char>| v@).contains(item@),
{
    let ghost views = list@.map_values(|v: Vec<char>| v@);
    let mut i: usize = 0;
    while i < list.len()
        invariant
            i <= list@.len(),
            views == list@.map_values(|v: Vec<char>| v@),
            forall|k: int| 0 <= k < i ==> views[k] != item@,
        decreases list@.len() - i,
    {
        if text::chars_equal(list[i].as_slice(), item.as_slice()) {
            assert(views[i as int] == item@);
            return true;
        }
        i = i + 1;
    }
    false
}

/// The catalog directory names tried for a locale value.
pub fn locale_candidates(language: &str) -> (r: Vec<String>)
    ensures
        r@.map_values(|s: String| s@) == locale_candidates_text(language@),
{
    let cs = text::chars_of(language);
    let a = take_before(cs.as_slice(), ':');
    let b = take_before(a.as_slice(), '@');
    let c = take_before(b.as_slice(), '.');
    let normalized = text::trim_chars(c.as_slice());
    let ghost n = normalized@;
    if normalized.len() == 0 {
        let mut r: Vec<String> = Vec::new();
        r.push(text::to_owned_string("en"));
        proof {
            assert(r@.map_values(|s: String| s@) =~= locale_candidates_text(language@));
        }
        return r;
    }
    let mut cands: Vec<Vec<char>> = Vec::new();
    cands.push(normalized.clone());
    if has_char(normalized.as_slice(), '_') {
        cands.push(replaced(normalized.as_slice(), '_', '-'));
    } else if has_char(normalized.as_slice(), '-') {
        cands.push(replaced(normalized.as_slice(), '-', '_'));
    }
    let mut k: usize = 0;
    while k < normalized.len() && normalized[k] != '-' && normalized[k] != '_'
        invariant
            k <= normalized@.len(),
            forall|j: int| 0 <= j < k ==> normalized@[j] != '-' && normalized@[j] != '_',
        decreases normalized@.len() - k,
    {
        k = k + 1;
    }
    proof {
        lemma_first_separator(n, k as int);
    }
    let mut base: Vec<char> = Vec::new();
    let mut i: usize = 0;
    while i < k
        invariant
            i <= k <= normalized@.len(),
            base@ == normalized@.take(i as int),
        decreases k - i,
    {
        base.push(normalized[i]);
        proof {
            assert(normalized@.take(i as int).push(normalized@[i as int]) =~= normalized@.take(
                i + 1,
            ));
        }
        i = i + 1;
    }
    let ghost with_alt = cands@.map_values(|v: Vec<char>| v@);
    proof {
        assert(with_alt =~= (if n.contains('_') {
            seq![n, replace_char(n, '_', '-')]
        } else if n.contains('-') {
            seq![n, replace_char(n, '-', '_')]
        } else {
            seq![n]
        }));
    }
    if !chars_in(&cands, &base) {
        cands.push(base);
    }
    let mut r: Vec<String> = Vec::new();
    let mut j: usize = 0;
    while j < cands.len()
        invariant
            j <= cands@.len(),
            r@.map_values(|s: String| s@) =~= cands@.map_values(|v: Vec<char>| v@).take(j as int),
        decreases cands@.len() - j,
    {
        r.push(text::string_from_chars(cands[j].as_slice()));
        proof {
            assert(cands@.map_values(|v: Vec<char>| v@).take(j + 1) =~= cands@.map_values(
                |v: Vec<char>| v@,
            ).take(j as int).push(cands@[j as int]@));
        }
        j = j + 1;
    }
    proof {
        assert(cands@.map_values(|v: Vec<char>| v@).take(cands@.len() as int) =~= cands@.map_values(
            |v: Vec<char>| v@,
        ));
        assert(r@.map_values(|s: String| s@) =~= locale_candidates_text(language@));
    }
    r
}

} // verus!

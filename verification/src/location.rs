//! Location labels: city names from geocoder results, localized time-zone
//! names and offsets, and the one line that tells where prayer times are
//! computed for.
use icu::calendar::{Date, Gregorian};
use icu::datetime::{DateTimeFormatterPreferences, FixedCalendarDateTimeFormatter, NoCalendarFormatter};
use icu::datetime::fieldsets::{ET, T};
use icu::datetime::options::TimePrecision;
use icu::datetime::preferences::HourCycle;
use icu::time::Time;
use icu::datetime::fieldsets::zone::{ExemplarCity, LocalizedOffsetLong, Location as TimeZoneLocation};
use icu::time::zone::{TimeZone, UtcOffset};
use icu_experimental::displaynames::DisplayNamesOptions;
use icu_experimental::displaynames::multi::RegionDisplayNames;
use icu_locale::Locale;
use icu_locale::subtags::Region;
use vstd::prelude::*;
use vstd::string::*;
use crate::config::{LocationMode, PrayerTimesSource, TimeFormat};
use crate::i18n;
use crate::style;
use crate::text;

verus! {

// ── Text pieces ───────────────────────────────────────────────────────────
/// `s` trimmed, or `None` where nothing is left.
pub open spec fn non_empty_spec(s: Seq<char>) -> Option<Seq<char>> {
    if text::trimmed(s).len() > 0 {
        Some(text::trimmed(s))
    } else {
        None
    }
}

/// The trimmed text, unless it is empty.
pub fn non_empty_text(value: &str) -> (r: Option<String>)
    ensures
        match r {
            Some(t) => non_empty_spec(value@) == Some(t@),
            None => non_empty_spec(value@) is None,
        },
{
    let t = text::trim_str(value);
    if t.as_str().is_empty() {
        None
    } else {
        Some(t)
    }
}

/// The pieces of `s` between the separators `c` (`str::split`): one more
/// piece than there are separators.
pub open spec fn split_on(s: Seq<char>, c: char) -> Seq<Seq<char>>
    decreases s.len(),
{
    if s.len() == 0 {
        seq![Seq::empty()]
    } else {
        let r = split_on(s.drop_last(), c);
        if s.last() == c {
            r.push(Seq::empty())
        } else {
            r.update(r.len() - 1, r.last().push(s.last()))
        }
    }
}

proof fn lemma_split_on_nonempty(s: Seq<char>, c: char)
    ensures
        split_on(s, c).len() >= 1,
    decreases s.len(),
{
    if s.len() > 0 {
        lemma_split_on_nonempty(s.drop_last(), c);
    }
}

/// The trimmed pieces that are not empty, in order.
pub open spec fn kept_pieces(pieces: Seq<Seq<char>>) -> Seq<Seq<char>>
    decreases pieces.len(),
{
    if pieces.len() == 0 {
        Seq::empty()
    } else {
        let r = kept_pieces(pieces.drop_last());
        if text::trimmed(pieces.last()).len() > 0 {
            r.push(text::trimmed(pieces.last()))
        } else {
            r
        }
    }
}

/// The comma-separated parts of a place name, trimmed, empty ones left out.
pub open spec fn place_parts(s: Seq<char>) -> Seq<Seq<char>> {
    kept_pieces(split_on(s, ','))
}

/// First and last part joined by ", " when there are two or more, the one
/// part when there is one, else the name itself.
pub open spec fn short_city_spec(s: Seq<char>) -> Seq<char> {
    let parts = place_parts(s);
    if parts.len() >= 2 {
        parts[0] + ", "@ + parts.last()
    } else if parts.len() == 1 {
        parts[0]
    } else {
        s
    }
}

/// Appends the characters of `s` to `out`.
fn push_chars(out: &mut Vec<char>, s: &[char])
    ensures
        final(out)@ == old(out)@ + s@,
{
    let mut i: usize = 0;
    while i < s.len()
        invariant
            i <= s@.len(),
            out@ == old(out)@ + s@.take(i as int),
        decreases s@.len() - i,
    {
        out.push(s[i]);
        proof {
            assert(s@.take(i + 1) =~= s@.take(i as int).push(s@[i as int]));
        }
        i = i + 1;
    }
    proof {
        assert(s@.take(s@.len() as int) =~= s@);
    }
}

/// The comma-separated parts of `s`, trimmed, empty ones left out.
fn place_parts_of(s: &str) -> (parts: Vec<Vec<char>>)
    ensures
        parts@.map_values(|p: Vec<char>| p@) == place_parts(s@),
{
    let cs = text::chars_of(s);
    let mut parts: Vec<Vec<char>> = Vec::new();
    let mut cur: Vec<char> = Vec::new();
    let mut i: usize = 0;
    while i < cs.len()
        invariant
            cs@ == s@,
            i <= cs@.len(),
            parts@.map_values(|p: Vec<char>| p@) == kept_pieces(split_on(cs@.take(i as int), ',').drop_last()),
            cur@ == split_on(cs@.take(i as int), ',').last(),
            split_on(cs@.take(i as int), ',').len() >= 1,
        decreases cs@.len() - i,
    {
        let ghost prev = split_on(cs@.take(i as int), ',');
        let ghost before = parts@;
        let c = cs[i];
        proof {
            assert(cs@.take(i + 1).drop_last() =~= cs@.take(i as int));
            assert(cs@.take(i + 1).last() == c);
        }
        if c == ',' {
            let t = text::trim_chars(cur.as_slice());
            if t.len() > 0 {
                parts.push(t);
            }
            cur = Vec::new();
            proof {
                let next = split_on(cs@.take(i + 1), ',');
                assert(next == prev.push(Seq::empty()));
                assert(next.drop_last() =~= prev);
                assert(prev =~= prev.drop_last().push(prev.last()));
                assert(parts@.map_values(|p: Vec<char>| p@) =~= kept_pieces(prev));
            }
        } else {
            cur.push(c);
            proof {
                let next = split_on(cs@.take(i + 1), ',');
                assert(next == prev.update(prev.len() - 1, prev.last().push(c)));
                assert(next.drop_last() =~= prev.drop_last());
            }
        }
        i = i + 1;
    }
    proof {
        assert(cs@.take(cs@.len() as int) =~= s@);
    }
    let ghost all = split_on(s@, ',');
    let ghost before = parts@;
    let t = text::trim_chars(cur.as_slice());
    if t.len() > 0 {
        parts.push(t);
    }
    proof {
        assert(all =~= all.drop_last().push(all.last()));
        assert(parts@.map_values(|p: Vec<char>| p@) =~= kept_pieces(all));
    }
    parts
}

/// "City, Country" from a geocoder's display name: its first and last
/// comma-separated parts.
pub fn short_city_with_country(display_name: &str) -> (r: String)
    ensures
        r@ == short_city_spec(display_name@),
{
    let parts = place_parts_of(display_name);
    let ghost pv = parts@.map_values(|p: Vec<char>| p@);
    if parts.len() >= 2 {
        let mut out: Vec<char> = Vec::new();
        push_chars(&mut out, parts[0].as_slice());
        out.push(',');
        out.push(' ');
        push_chars(&mut out, parts[parts.len() - 1].as_slice());
        proof {
            assert(pv[0] == parts@[0]@);
            assert(pv.last() == parts@[parts@.len() - 1]@);
            assert(out@ =~= pv[0] + ", "@ + pv.last()) by {
                reveal_strlit(", ");
            }
        }
        text::string_from_chars(out.as_slice())
    } else if parts.len() == 1 {
        proof {
            assert(pv[0] == parts@[0]@);
        }
        text::string_from_chars(parts[0].as_slice())
    } else {
        text::to_owned_string(display_name)
    }
}

// ── Published times ───────────────────────────────────────────────────────
/// Whether `c` is an ASCII digit.
pub open spec fn is_digit(c: char) -> bool {
    '0' <= c <= '9'
}

/// The value of a string of ASCII digits.
pub open spec fn digits_value(s: Seq<char>) -> nat
    decreases s.len(),
{
    if s.len() == 0 {
        0
    } else {
        digits_value(s.drop_last()) * 10 + ((s.last() as int) - ('0' as int)) as nat
    }
}

/// The digits after an optional leading `+`.
pub open spec fn unsigned_digits(s: Seq<char>) -> Seq<char> {
    if s.len() > 0 && s[0] == '+' {
        s.drop_first()
    } else {
        s
    }
}

/// Every character of `d` is an ASCII digit.
pub open spec fn all_digits(d: Seq<char>) -> bool {
    forall|k: int| 0 <= k < d.len() ==> is_digit(#[trigger] d[k])
}

/// What `str::parse::<u32>` gives: an optional `+` and at least one digit,
/// nothing else, of a value that fits in `u32`.
pub open spec fn parse_u32_spec(s: Seq<char>) -> Option<nat> {
    let d = unsigned_digits(s);
    if d.len() > 0 && all_digits(d) && digits_value(d) <= u32::MAX {
        Some(digits_value(d))
    } else {
        None
    }
}

/// `str::parse::<u32>` on a character sequence.
pub(crate) fn parse_u32(s: &[char]) -> (r: Option<u32>)
    ensures
        match r {
            Some(v) => parse_u32_spec(s@) == Some(v as nat),
            None => parse_u32_spec(s@) is None,
        },
{
    let start: usize = if s.len() > 0 && s[0] == '+' {
        1
    } else {
        0
    };
    let ghost d = unsigned_digits(s@);
    proof {
        assert(d =~= s@.skip(start as int));
    }
    if start >= s.len() {
        return None;
    }
    let mut value: u64 = 0;
    let mut i: usize = start;
    while i < s.len()
        invariant
            start <= i <= s@.len(),
            d =~= s@.skip(start as int),
            d == unsigned_digits(s@),
            value == digits_value(d.take(i - start)),
            value <= u32::MAX,
            forall|k: int| 0 <= k < i - start ==> is_digit(#[trigger] d[k]),
        decreases s@.len() - i,
    {
        let c = s[i];
        if !('0' <= c && c <= '9') {
            proof {
                assert(d[i - start] == c);
                assert(!is_digit(d[i - start]));
            }
            return None;
        }
        let digit = (c as u64) - ('0' as u64);
        proof {
            assert(d.take(i + 1 - start).drop_last() =~= d.take(i - start));
            assert(d.take(i + 1 - start).last() == c);
            assert(d[i - start] == c);
        }
        let next = value * 10 + digit;
        proof {
            assert(digits_value(d.take(i + 1 - start)) == next);
        }
        if next > 4294967295 {
            proof {
                if all_digits(d) {
                    lemma_digits_value_prefix(d, i + 1 - start);
                }
            }
            return None;
        }
        value = next;
        i = i + 1;
    }
    proof {
        assert(d.take(i - start) =~= d);
    }
    Some(value as u32)
}

/// A longer run of digits is worth at least as much as a prefix of it.
proof fn lemma_digits_value_prefix(d: Seq<char>, n: int)
    requires
        0 <= n <= d.len(),
        all_digits(d),
    ensures
        digits_value(d.take(n)) <= digits_value(d),
    decreases d.len() - n,
{
    if n < d.len() {
        lemma_digits_value_prefix(d, n + 1);
        assert(d.take(n + 1).drop_last() =~= d.take(n));
        assert(d.take(n + 1).last() == d[n]);
    } else {
        assert(d.take(n) =~= d);
    }
}


/// A published "HH:MM" time in the chosen clock style: two-digit hours
/// and minutes, with AM/PM on the 12-hour clock; text that does not split
/// at a `:` into two `u32` numbers is shown as it is.
pub open spec fn published_time_spec(p: Seq<char>, f: TimeFormat) -> Seq<char> {
    let i = i18n::first_index_of(p, ':');
    if i >= p.len() {
        p
    } else {
        match (parse_u32_spec(text::trimmed(p.take(i))), parse_u32_spec(text::trimmed(p.skip(i + 1)))) {
            (Some(h), Some(m)) => match f {
                TimeFormat::Hours12 => {
                    let dh: nat = if h == 0 || h == 12 {
                        12
                    } else if h > 12 {
                        (h - 12) as nat
                    } else {
                        h
                    };
                    let period = if h >= 12 {
                        "PM"@
                    } else {
                        "AM"@
                    };
                    text::decimal2_text(dh) + ":"@ + text::decimal2_text(m) + " "@ + period
                },
                _ => text::decimal2_text(h) + ":"@ + text::decimal2_text(m),
            },
            _ => p,
        }
    }
}

/// The characters of `s` from position `from` on.
fn chars_from(s: &[char], from: usize) -> (r: Vec<char>)
    requires
        from <= s@.len(),
    ensures
        r@ == s@.skip(from as int),
{
    let mut r: Vec<char> = Vec::new();
    let mut i: usize = from;
    while i < s.len()
        invariant
            from <= i <= s@.len(),
            r@ == s@.subrange(from as int, i as int),
        decreases s@.len() - i,
    {
        r.push(s[i]);
        proof {
            assert(s@.subrange(from as int, i + 1) =~= s@.subrange(from as int, i as int).push(s@[i as int]));
        }
        i = i + 1;
    }
    proof {
        assert(s@.subrange(from as int, s@.len() as int) =~= s@.skip(from as int));
    }
    r
}

/// Formats a mosque's published "HH:MM" wall-clock time for display,
/// converting only between the 12- and 24-hour styles.
pub fn format_published_time(published: &str, time_format: TimeFormat) -> (r: String)
    ensures
        r@ == published_time_spec(published@, time_format),
{
    let cs = text::chars_of(published);
    let i = i18n::find_char(cs.as_slice(), ':');
    if i >= cs.len() {
        return text::to_owned_string(published);
    }
    let head = i18n::take_before(cs.as_slice(), ':');
    let tail = chars_from(cs.as_slice(), i + 1);
    let head_t = text::trim_chars(head.as_slice());
    let tail_t = text::trim_chars(tail.as_slice());
    let hours = parse_u32(head_t.as_slice());
    let minutes = parse_u32(tail_t.as_slice());
    proof {
        assert(head@ == cs@.take(i as int));
    }
    match (hours, minutes) {
        (Some(h), Some(m)) => {
            let mut out = String::new();
            match time_format {
                TimeFormat::Hours12 => {
                    let dh: u32 = if h == 0 || h == 12 {
                        12
                    } else if h > 12 {
                        h - 12
                    } else {
                        h
                    };
                    text::push_decimal2(&mut out, dh as u64);
                    out.append(":");
                    text::push_decimal2(&mut out, m as u64);
                    out.append(" ");
                    if h >= 12 {
                        out.append("PM");
                    } else {
                        out.append("AM");
                    }
                },
                _ => {
                    text::push_decimal2(&mut out, h as u64);
                    out.append(":");
                    text::push_decimal2(&mut out, m as u64);
                },
            }
            proof {
                assert(out@ =~= published_time_spec(published@, time_format));
            }
            out
        },
        _ => text::to_owned_string(published),
    }
}

// ── Offsets ───────────────────────────────────────────────────────────────
/// "UTC" with the sign and two-digit hours, and ":MM" where the offset has
/// minutes (seconds are dropped).
pub open spec fn fallback_offset_spec(offset_secs: int) -> Seq<char> {
    let sign = if offset_secs >= 0 {
        '+'
    } else {
        '-'
    };
    let a: nat = if offset_secs >= 0 {
        offset_secs as nat
    } else {
        (-offset_secs) as nat
    };
    let hours = a / 3600;
    let mins = (a % 3600) / 60;
    if mins == 0 {
        "UTC"@.push(sign) + text::decimal2_text(hours)
    } else {
        "UTC"@.push(sign) + text::decimal2_text(hours) + ":"@ + text::decimal2_text(mins)
    }
}

/// The offset written without ICU.
pub fn fallback_offset(offset_secs: i32) -> (r: String)
    ensures
        r@ == fallback_offset_spec(offset_secs as int),
{
    let sign = if offset_secs >= 0 {
        '+'
    } else {
        '-'
    };
    let a: u64 = if offset_secs >= 0 {
        offset_secs as u64
    } else {
        (0i64 - (offset_secs as i64)) as u64
    };
    let hours = a / 3600;
    let mins = (a % 3600) / 60;
    let mut out = String::new();
    out.append("UTC");
    text::push_char(&mut out, sign);
    text::push_decimal2(&mut out, hours);
    if mins != 0 {
        out.append(":");
        text::push_decimal2(&mut out, mins);
    }
    proof {
        assert(out@ =~= fallback_offset_spec(offset_secs as int));
    }
    out
}


// ── ASCII case ────────────────────────────────────────────────────────────
/// `c` with ASCII upper case turned to lower case.
pub open spec fn ascii_lower_char(c: char) -> char {
    if 'A' <= c <= 'Z' {
        ((c as u8) + 32u8) as char
    } else {
        c
    }
}

/// `str::to_ascii_lowercase`.
pub open spec fn ascii_lower(s: Seq<char>) -> Seq<char> {
    s.map_values(|c: char| ascii_lower_char(c))
}

pub(crate) fn to_ascii_lower(s: &str) -> (r: Vec<char>)
    ensures
        r@ == ascii_lower(s@),
{
    let cs = text::chars_of(s);
    let mut r: Vec<char> = Vec::new();
    let mut i: usize = 0;
    while i < cs.len()
        invariant
            cs@ == s@,
            i <= cs@.len(),
            r@ == ascii_lower(cs@.take(i as int)),
        decreases cs@.len() - i,
    {
        let c = cs[i];
        let l = if 'A' <= c && c <= 'Z' {
            ((c as u8) + 32u8) as char
        } else {
            c
        };
        r.push(l);
        proof {
            assert(ascii_lower(cs@.take(i + 1)) =~= ascii_lower(cs@.take(i as int)).push(l));
        }
        i = i + 1;
    }
    proof {
        assert(cs@.take(cs@.len() as int) =~= cs@);
    }
    r
}

// ── Countries and regions ─────────────────────────────────────────────────
/// The display name ICU4X's `RegionDisplayNames` (compiled data, default
/// options) gives region `code` in locale `locale`, or `None` where the
/// locale or the region does not parse, the data does not load, or there is
/// no name.
pub uninterp spec fn icu_region_display_name(locale: Seq<char>, code: Seq<char>) -> Option<Seq<char>>;

/// Looks up a region's display name with icu_experimental's
/// `RegionDisplayNames::try_new(..).of(..)`. Claims only the named result
/// for these two texts.
#[verifier::external_body]
fn region_display_name(locale_text: &str, code: &str) -> (r: Option<String>)
    ensures
        match r {
            Some(t) => icu_region_display_name(locale_text@, code@) == Some(t@),
            None => icu_region_display_name(locale_text@, code@) is None,
        },
{
    let region: Region = match code.parse() {
        Ok(region) => region,
        Err(_) => return None,
    };
    let locale: Locale = match locale_text.parse() {
        Ok(locale) => locale,
        Err(_) => return None,
    };
    match RegionDisplayNames::try_new(locale.into(), DisplayNamesOptions::default()) {
        Ok(names) => match names.of(region) {
            Some(name) => Some(name.to_string()),
            None => None,
        },
        Err(_) => None,
    }
}

/// The locale ICU lookups use: the locale key, or English where ICU does
/// not parse it.
pub open spec fn lookup_locale(language: Seq<char>, system_locale: Seq<char>) -> Seq<char> {
    let key = i18n::icu_locale_key_text(language, system_locale);
    if i18n::icu_canonical_locale(key) is Some {
        key
    } else {
        "en"@
    }
}

fn lookup_locale_of(language: &str, system_locale: &str) -> (r: String)
    ensures
        r@ == lookup_locale(language@, system_locale@),
{
    let key = i18n::icu_locale_key(language, system_locale);
    match i18n::canonical_locale(key.as_str()) {
        Some(_) => key,
        None => text::to_owned_string("en"),
    }
}

/// The country name for a region code in the interface language; Israel's
/// code names Palestine.
pub open spec fn country_name_spec(code: Seq<char>, language: Seq<char>, system_locale: Seq<char>) -> Option<Seq<char>> {
    let actual = if ascii_lower(code) == "il"@ {
        "PS"@
    } else {
        code
    };
    icu_region_display_name(lookup_locale(language, system_locale), actual)
}

/// The localized name of the country (or UN M.49 region) `code`.
pub fn country_name_from_code(code: &str, language: &str, system_locale: &str) -> (r: Option<String>)
    ensures
        match r {
            Some(t) => country_name_spec(code@, language@, system_locale@) == Some(t@),
            None => country_name_spec(code@, language@, system_locale@) is None,
        },
{
    let locale_text = lookup_locale_of(language, system_locale);
    let lower = to_ascii_lower(code);
    let il = text::chars_of("il");
    if text::chars_equal(lower.as_slice(), il.as_slice()) {
        region_display_name(locale_text.as_str(), "PS")
    } else {
        region_display_name(locale_text.as_str(), code)
    }
}

// ── Time zones ────────────────────────────────────────────────────────────
/// Whether ICU4X's `TimeZone::from_iana_id` knows the IANA id `id`.
pub uninterp spec fn icu_zone_known(id: Seq<char>) -> bool;

/// The exemplar city ICU4X's `NoCalendarFormatter<ExemplarCity>` writes for
/// zone `id` in locale `locale`, or `None` where the locale does not parse
/// or the formatter does not load.
pub uninterp spec fn icu_exemplar_city(locale: Seq<char>, id: Seq<char>) -> Option<Seq<char>>;

/// The location name ICU4X's `NoCalendarFormatter<Location>` writes for zone
/// `id` in locale `locale`, or `None` as for `icu_exemplar_city`.
pub uninterp spec fn icu_zone_location(locale: Seq<char>, id: Seq<char>) -> Option<Seq<char>>;

/// The long localized offset ICU4X's `NoCalendarFormatter<LocalizedOffsetLong>`
/// writes for `secs` seconds in locale `locale`, or `None` where
/// `UtcOffset::try_from_seconds` rejects the offset, the locale does not
/// parse, or the formatter does not load.
pub uninterp spec fn icu_offset_name(locale: Seq<char>, secs: int) -> Option<Seq<char>>;

/// Whether `TimeZone::from_iana_id(id)` is a known zone (not ICU's unknown
/// zone). Claims only the named result.
#[verifier::external_body]
fn iana_zone_known(id: &str) -> (r: bool)
    ensures
        r == icu_zone_known(id@),
{
    !TimeZone::from_iana_id(id).is_unknown()
}

/// Formats zone `id` with `NoCalendarFormatter::<ExemplarCity>` in locale
/// `locale_text`. Claims only the named result.
#[verifier::external_body]
fn exemplar_city(locale_text: &str, id: &str) -> (r: Option<String>)
    ensures
        match r {
            Some(t) => icu_exemplar_city(locale_text@, id@) == Some(t@),
            None => icu_exemplar_city(locale_text@, id@) is None,
        },
{
    let locale: Locale = match locale_text.parse() {
        Ok(locale) => locale,
        Err(_) => return None,
    };
    match NoCalendarFormatter::try_new(locale.into(), ExemplarCity) {
        Ok(formatter) => Some(formatter.format(&TimeZone::from_iana_id(id).with_offset(None)).to_string()),
        Err(_) => None,
    }
}

/// Formats zone `id` with `NoCalendarFormatter::<Location>` in locale
/// `locale_text`. Claims only the named result.
#[verifier::external_body]
fn zone_location(locale_text: &str, id: &str) -> (r: Option<String>)
    ensures
        match r {
            Some(t) => icu_zone_location(locale_text@, id@) == Some(t@),
            None => icu_zone_location(locale_text@, id@) is None,
        },
{
    let locale: Locale = match locale_text.parse() {
        Ok(locale) => locale,
        Err(_) => return None,
    };
    match NoCalendarFormatter::try_new(locale.into(), TimeZoneLocation) {
        Ok(formatter) => Some(formatter.format(&TimeZone::from_iana_id(id).without_offset()).to_string()),
        Err(_) => None,
    }
}

/// Formats an offset with `NoCalendarFormatter::<LocalizedOffsetLong>` in
/// locale `locale_text`. Claims only the named result.
#[verifier::external_body]
fn offset_name(locale_text: &str, secs: i32) -> (r: Option<String>)
    ensures
        match r {
            Some(t) => icu_offset_name(locale_text@, secs as int) == Some(t@),
            None => icu_offset_name(locale_text@, secs as int) is None,
        },
{
    let offset = match UtcOffset::try_from_seconds(secs) {
        Ok(offset) => offset,
        Err(_) => return None,
    };
    let locale: Locale = match locale_text.parse() {
        Ok(locale) => locale,
        Err(_) => return None,
    };
    match NoCalendarFormatter::try_new(locale.into(), LocalizedOffsetLong) {
        Ok(formatter) => Some(formatter.format(&offset).to_string()),
        Err(_) => None,
    }
}

/// A name ICU gives a zone, trimmed, unless ICU does not know the zone or
/// the name is empty.
pub open spec fn zone_name_spec(named: Option<Seq<char>>, id: Seq<char>) -> Option<Seq<char>> {
    if !icu_zone_known(id) {
        None
    } else {
        match named {
            Some(t) => non_empty_spec(t),
            None => None,
        }
    }
}

/// The city ICU names for a time zone, in the interface language.
pub open spec fn city_name_spec(tz: Seq<char>, language: Seq<char>, system_locale: Seq<char>) -> Option<Seq<char>> {
    let id = text::trimmed(tz);
    zone_name_spec(icu_exemplar_city(i18n::icu_locale_key_text(language, system_locale), id), id)
}

/// The location name ICU gives a time zone, in the interface language.
pub open spec fn zone_location_spec(tz: Seq<char>, language: Seq<char>, system_locale: Seq<char>) -> Option<Seq<char>> {
    let id = text::trimmed(tz);
    zone_name_spec(icu_zone_location(i18n::icu_locale_key_text(language, system_locale), id), id)
}

/// The localized exemplar city of a time zone ("Wien" for Europe/Vienna in
/// German).
pub fn city_name_from_time_zone(timezone: &str, language: &str, system_locale: &str) -> (r: Option<String>)
    ensures
        match r {
            Some(t) => city_name_spec(timezone@, language@, system_locale@) == Some(t@),
            None => city_name_spec(timezone@, language@, system_locale@) is None,
        },
{
    let id = text::trim_str(timezone);
    if !iana_zone_known(id.as_str()) {
        return None;
    }
    let key = i18n::icu_locale_key(language, system_locale);
    match exemplar_city(key.as_str(), id.as_str()) {
        Some(t) => non_empty_text(t.as_str()),
        None => None,
    }
}

/// The localized location name of a time zone.
pub fn time_zone_location_name(timezone: &str, language: &str, system_locale: &str) -> (r: Option<String>)
    ensures
        match r {
            Some(t) => zone_location_spec(timezone@, language@, system_locale@) == Some(t@),
            None => zone_location_spec(timezone@, language@, system_locale@) is None,
        },
{
    let id = text::trim_str(timezone);
    if !iana_zone_known(id.as_str()) {
        return None;
    }
    let key = i18n::icu_locale_key(language, system_locale);
    match zone_location(key.as_str(), id.as_str()) {
        Some(t) => non_empty_text(t.as_str()),
        None => None,
    }
}

/// The label of a time zone: its location name, else its exemplar city,
/// else the id trimmed, else the id as given.
pub open spec fn time_zone_label_spec(tz: Seq<char>, language: Seq<char>, system_locale: Seq<char>) -> Seq<char> {
    match zone_location_spec(tz, language, system_locale) {
        Some(t) => t,
        None => match city_name_spec(tz, language, system_locale) {
            Some(t) => t,
            None => match non_empty_spec(tz) {
                Some(t) => t,
                None => tz,
            },
        },
    }
}

/// The localized label of a time zone.
pub fn localized_time_zone_label(timezone: &str, language: &str, system_locale: &str) -> (r: String)
    ensures
        r@ == time_zone_label_spec(timezone@, language@, system_locale@),
{
    match time_zone_location_name(timezone, language, system_locale) {
        Some(t) => t,
        None => match city_name_from_time_zone(timezone, language, system_locale) {
            Some(t) => t,
            None => match non_empty_text(timezone) {
                Some(t) => t,
                None => text::to_owned_string(timezone),
            },
        },
    }
}

/// What an IANA root is called: the localized continent (by its UN M.49
/// code) for the continents, a translation of the ocean or "Arctic" for the
/// others, nothing for any other root.
pub open spec fn root_name_ok(root: Seq<char>, language: Seq<char>, system_locale: Seq<char>, r: Option<Seq<char>>) -> bool {
    if root == "Africa"@ {
        r == country_name_spec("002"@, language, system_locale)
    } else if root == "America"@ {
        r == country_name_spec("019"@, language, system_locale)
    } else if root == "Antarctica"@ {
        r == country_name_spec("010"@, language, system_locale)
    } else if root == "Asia"@ {
        r == country_name_spec("142"@, language, system_locale)
    } else if root == "Australia"@ {
        r == country_name_spec("036"@, language, system_locale)
    } else if root == "Europe"@ {
        r == country_name_spec("150"@, language, system_locale)
    } else if root == "Atlantic"@ {
        r matches Some(t) && i18n::is_tr_of(t, "Atlantic Ocean"@)
    } else if root == "Indian"@ {
        r matches Some(t) && i18n::is_tr_of(t, "Indian Ocean"@)
    } else if root == "Pacific"@ {
        r matches Some(t) && i18n::is_tr_of(t, "Pacific Ocean"@)
    } else if root == "Arctic"@ {
        r matches Some(t) && i18n::is_tr_of(t, "Arctic"@)
    } else {
        r is None
    }
}

/// The localized name of the root of an IANA zone id.
fn localize_iana_root(root: &str, language: &str, system_locale: &str) -> (r: Option<String>)
    ensures
        root_name_ok(
            root@,
            language@,
            system_locale@,
            match r {
                Some(t) => Some(t@),
                None => None,
            },
        ),
{
    proof {
        reveal_strlit("Atlantic Ocean");
        reveal_strlit("Indian Ocean");
        reveal_strlit("Pacific Ocean");
        reveal_strlit("Arctic");
    }
    if text::str_equal(root, "Africa") {
        country_name_from_code("002", language, system_locale)
    } else if text::str_equal(root, "America") {
        country_name_from_code("019", language, system_locale)
    } else if text::str_equal(root, "Antarctica") {
        country_name_from_code("010", language, system_locale)
    } else if text::str_equal(root, "Asia") {
        country_name_from_code("142", language, system_locale)
    } else if text::str_equal(root, "Australia") {
        country_name_from_code("036", language, system_locale)
    } else if text::str_equal(root, "Europe") {
        country_name_from_code("150", language, system_locale)
    } else if text::str_equal(root, "Atlantic") {
        Some(i18n::translate("Atlantic Ocean"))
    } else if text::str_equal(root, "Indian") {
        Some(i18n::translate("Indian Ocean"))
    } else if text::str_equal(root, "Pacific") {
        Some(i18n::translate("Pacific Ocean"))
    } else if text::str_equal(root, "Arctic") {
        Some(i18n::translate("Arctic"))
    } else {
        None
    }
}

/// A zone id written with its parts localized: the root as
/// `localize_iana_root` names it (else as it is) and, except under "Etc",
/// the city as ICU names it (else as it is); an id without `/` as it is.
pub open spec fn localized_zone_ok(zone: Seq<char>, language: Seq<char>, system_locale: Seq<char>, r: Seq<char>) -> bool {
    let i = i18n::first_index_of(zone, '/');
    if i >= zone.len() {
        r == zone
    } else {
        let root = zone.take(i);
        let city = zone.skip(i + 1);
        let lcity = if root == "Etc"@ {
            city
        } else {
            match city_name_spec(zone, language, system_locale) {
                Some(t) => t,
                None => city,
            }
        };
        exists|lroot: Option<Seq<char>>|
            root_name_ok(root, language, system_locale, lroot) && r == (match lroot {
                Some(t) => t,
                None => root,
            }) + "/"@ + lcity
    }
}

/// A zone id with its root and city localized ("Europe/Oslo" in Arabic
/// begins with "أوروبا/").
pub fn localized_zone(zone: &str, language: &str, system_locale: &str) -> (r: String)
    ensures
        localized_zone_ok(zone@, language@, system_locale@, r@),
{
    let cs = text::chars_of(zone);
    let i = i18n::find_char(cs.as_slice(), '/');
    if i >= cs.len() {
        return text::to_owned_string(zone);
    }
    let root_chars = i18n::take_before(cs.as_slice(), '/');
    let city_chars = chars_from(cs.as_slice(), i + 1);
    let root = text::string_from_chars(root_chars.as_slice());
    let lroot = localize_iana_root(root.as_str(), language, system_locale);
    let ghost lroot_view: Option<Seq<char>> = match &lroot {
        Some(t) => Some(t@),
        None => None,
    };
    let mut out = match lroot {
        Some(t) => t,
        None => text::string_from_chars(root_chars.as_slice()),
    };
    out.append("/");
    let lcity = if text::str_equal(root.as_str(), "Etc") {
        text::string_from_chars(city_chars.as_slice())
    } else {
        match city_name_from_time_zone(zone, language, system_locale) {
            Some(t) => t,
            None => text::string_from_chars(city_chars.as_slice()),
        }
    };
    out.append(lcity.as_str());
    proof {
        assert(root@ == zone@.take(i as int));
        assert(root_name_ok(root@, language@, system_locale@, lroot_view));
    }
    out
}

/// The localized offset: ICU's long form in the interface language (English
/// where ICU does not parse the locale key), else the plain UTC form.
pub open spec fn localized_offset_spec(offset_secs: int, language: Seq<char>, system_locale: Seq<char>) -> Seq<char> {
    match icu_offset_name(lookup_locale(language, system_locale), offset_secs) {
        Some(t) => t,
        None => fallback_offset_spec(offset_secs),
    }
}

/// An offset from UTC as the interface language writes it.
pub fn localized_offset(offset_secs: i32, language: &str, system_locale: &str) -> (r: String)
    ensures
        r@ == localized_offset_spec(offset_secs as int, language@, system_locale@),
{
    let locale_text = lookup_locale_of(language, system_locale);
    match offset_name(locale_text.as_str(), offset_secs) {
        Some(t) => t,
        None => fallback_offset(offset_secs),
    }
}


// ── Place labels ──────────────────────────────────────────────────────────
/// `city`, followed by ", " and the country of `code` where a code is given,
/// the city has no comma, and the country has a non-empty name.
pub open spec fn append_country_spec(city: Seq<char>, code: Option<Seq<char>>, language: Seq<char>, system_locale: Seq<char>) -> Seq<char> {
    match code {
        Some(c) => match country_name_spec(c, language, system_locale) {
            Some(n) => if !city.contains(',') && n.len() > 0 {
                city + ", "@ + n
            } else {
                city
            },
            None => city,
        },
        None => city,
    }
}

/// Adds the country of `country_code` to a city name that has none.
pub fn append_country(city: String, country_code: Option<&str>, language: &str, system_locale: &str) -> (r: String)
    ensures
        r@ == append_country_spec(
            city@,
            match country_code {
                Some(c) => Some(c@),
                None => None,
            },
            language@,
            system_locale@,
        ),
{
    let mut text = city;
    match country_code {
        Some(code) => {
            let cs = text::chars_of(text.as_str());
            if !i18n::has_char(cs.as_slice(), ',') {
                match country_name_from_code(code, language, system_locale) {
                    Some(country) => {
                        if !country.as_str().is_empty() {
                            text.append(", ");
                            text.append(country.as_str());
                        }
                    },
                    None => {},
                }
            }
        },
        None => {},
    }
    text
}

/// The stored city, trimmed and shortened to "City, Country".
pub open spec fn city_label_spec(city_name: Option<Seq<char>>) -> Option<Seq<char>> {
    match city_name {
        Some(c) => match non_empty_spec(c) {
            Some(t) => Some(short_city_spec(t)),
            None => None,
        },
        None => None,
    }
}

/// The label of a stored city name, or `None` where none is stored.
pub fn display_city_label(city_name: Option<&str>, language: &str, system_locale: &str) -> (r: Option<String>)
    ensures
        match r {
            Some(t) => city_label_spec(
                match city_name {
                    Some(c) => Some(c@),
                    None => None,
                },
            ) == Some(t@),
            None => city_label_spec(
                match city_name {
                    Some(c) => Some(c@),
                    None => None,
                },
            ) is None,
        },
{
    match city_name {
        Some(c) => match non_empty_text(c) {
            Some(t) => Some(append_country(short_city_with_country(t.as_str()), None, language, system_locale)),
            None => None,
        },
        None => None,
    }
}

/// What the cached data of a connected mosque says about where it is.
pub struct MawaqitPlace {
    pub mosque_name: Option<String>,
    pub resolved_city: Option<String>,
    pub country_code: Option<String>,
}

/// A stored optional text as text.
pub open spec fn opt_string(o: Option<String>) -> Option<Seq<char>> {
    match o {
        Some(t) => Some(t@),
        None => None,
    }
}

/// The name in an optional text, trimmed, unless it is absent or empty.
pub open spec fn present_name(o: Option<String>) -> Option<Seq<char>> {
    match o {
        Some(t) => non_empty_spec(t@),
        None => None,
    }
}

/// The location line: for a connected mosque, its name, else its resolved
/// city (each shortened and with the country added), else the coordinates;
/// in manual mode the coordinates; otherwise the stored city, else the
/// coordinates.
pub open spec fn location_label_spec(
    source: PrayerTimesSource,
    mode: LocationMode,
    place: Option<MawaqitPlace>,
    city_name: Option<Seq<char>>,
    coordinates: Seq<char>,
    language: Seq<char>,
    system_locale: Seq<char>,
) -> Seq<char> {
    if source == PrayerTimesSource::Mawaqit {
        match place {
            Some(p) => match present_name(p.mosque_name) {
                Some(n) => append_country_spec(short_city_spec(n), opt_string(p.country_code), language, system_locale),
                None => match present_name(p.resolved_city) {
                    Some(c) => append_country_spec(short_city_spec(c), opt_string(p.country_code), language, system_locale),
                    None => coordinates,
                },
            },
            None => coordinates,
        }
    } else if mode == LocationMode::Manual {
        coordinates
    } else {
        match city_label_spec(city_name) {
            Some(t) => t,
            None => coordinates,
        }
    }
}

fn opt_str(o: &Option<String>) -> (r: Option<&str>)
    ensures
        match r {
            Some(t) => *o matches Some(s) && t@ == s@,
            None => o is None,
        },
{
    match o {
        Some(s) => Some(s.as_str()),
        None => None,
    }
}

/// The single line that tells where prayer times are computed for;
/// `coordinates` is the written form of the stored coordinates.
pub fn display_location_label(
    source: PrayerTimesSource,
    location_mode: LocationMode,
    place: Option<&MawaqitPlace>,
    city_name: Option<&str>,
    coordinates: &str,
    language: &str,
    system_locale: &str,
) -> (r: String)
    ensures
        r@ == location_label_spec(
            source,
            location_mode,
            match place {
                Some(p) => Some(*p),
                None => None,
            },
            match city_name {
                Some(c) => Some(c@),
                None => None,
            },
            coordinates@,
            language@,
            system_locale@,
        ),
{
    if source == PrayerTimesSource::Mawaqit {
        match place {
            Some(p) => {
                let code = opt_str(&p.country_code);
                let name = match opt_str(&p.mosque_name) {
                    Some(n) => non_empty_text(n),
                    None => None,
                };
                match name {
                    Some(n) => {
                        return append_country(short_city_with_country(n.as_str()), code, language, system_locale);
                    },
                    None => {},
                }
                let city = match opt_str(&p.resolved_city) {
                    Some(c) => non_empty_text(c),
                    None => None,
                };
                match city {
                    Some(c) => append_country(short_city_with_country(c.as_str()), code, language, system_locale),
                    None => text::to_owned_string(coordinates),
                }
            },
            None => text::to_owned_string(coordinates),
        }
    } else if location_mode == LocationMode::Manual {
        text::to_owned_string(coordinates)
    } else {
        match display_city_label(city_name, language, system_locale) {
            Some(t) => t,
            None => text::to_owned_string(coordinates),
        }
    }
}


// ── Geocoder results ──────────────────────────────────────────────────────
/// The address details of a geocoder result.
pub struct GeocodeAddress {
    pub country_code: Option<String>,
    pub city: Option<String>,
    pub town: Option<String>,
    pub village: Option<String>,
    pub suburb: Option<String>,
}

/// One result of the Nominatim geocoder.
pub struct GeocodeResult {
    pub latitude: String,
    pub longitude: String,
    pub display_name: String,
    pub address: Option<GeocodeAddress>,
    pub timezone: Option<String>,
}

/// The locality of an address: its city, town, village or suburb, the
/// first given, else "City".
pub open spec fn locality_spec(a: GeocodeAddress) -> Seq<char> {
    match a.city {
        Some(c) => c@,
        None => match a.town {
            Some(t) => t@,
            None => match a.village {
                Some(v) => v@,
                None => match a.suburb {
                    Some(s) => s@,
                    None => "City"@,
                },
            },
        },
    }
}

/// The place name of a geocoder result: for an address in Israel, its
/// locality with Palestine as the country (where ICU names it); otherwise
/// the display name.
pub open spec fn geocode_label_spec(r: GeocodeResult, language: Seq<char>, system_locale: Seq<char>) -> Seq<char> {
    match r.address {
        Some(a) => match a.country_code {
            Some(cc) => if ascii_lower(cc@) == "il"@ {
                match country_name_spec("PS"@, language, system_locale) {
                    Some(n) => locality_spec(a) + ", "@ + n,
                    None => r.display_name@,
                }
            } else {
                r.display_name@
            },
            None => r.display_name@,
        },
        None => r.display_name@,
    }
}

fn locality(a: &GeocodeAddress) -> (r: String)
    ensures
        r@ == locality_spec(*a),
{
    match &a.city {
        Some(c) => text::to_owned_string(c.as_str()),
        None => match &a.town {
            Some(t) => text::to_owned_string(t.as_str()),
            None => match &a.village {
                Some(v) => text::to_owned_string(v.as_str()),
                None => match &a.suburb {
                    Some(s) => text::to_owned_string(s.as_str()),
                    None => text::to_owned_string("City"),
                },
            },
        },
    }
}

/// The place name shown for a geocoder result.
pub fn geocode_place_name(result: &GeocodeResult, language: &str, system_locale: &str) -> (r: String)
    ensures
        r@ == geocode_label_spec(*result, language@, system_locale@),
{
    proof {
        reveal_strlit("PS");
        reveal_strlit("il");
        assert(ascii_lower("PS"@) =~= "ps"@) by {
            reveal_strlit("ps");
        }
        assert("ps"@ != "il"@) by {
            reveal_strlit("ps");
            assert("ps"@[0] != "il"@[0]);
        }
    }
    match &result.address {
        Some(a) => match &a.country_code {
            Some(cc) => {
                let lower = to_ascii_lower(cc.as_str());
                let il = text::chars_of("il");
                if text::chars_equal(lower.as_slice(), il.as_slice()) {
                    match country_name_from_code("PS", language, system_locale) {
                        Some(n) => {
                            let mut out = locality(a);
                            out.append(", ");
                            out.append(n.as_str());
                            out
                        },
                        None => text::to_owned_string(result.display_name.as_str()),
                    }
                } else {
                    text::to_owned_string(result.display_name.as_str())
                }
            },
            None => text::to_owned_string(result.display_name.as_str()),
        },
        None => text::to_owned_string(result.display_name.as_str()),
    }
}

// ── Search URL ────────────────────────────────────────────────────────────
/// Bytes that percent-encoding leaves as they are: ASCII letters and digits
/// and `-`, `.`, `_`, `~`.
pub open spec fn is_unreserved(b: u8) -> bool {
    (48 <= b <= 57) || (65 <= b <= 90) || (97 <= b <= 122) || b == 45 || b == 46 || b == 95 || b == 126
}

/// The upper-case hexadecimal digit of `d` (below 16).
pub open spec fn hex_digit(d: int) -> char {
    if d < 10 {
        (48 + d) as char
    } else {
        (55 + d) as char
    }
}

/// Percent-encoding of `b`: unreserved bytes as they are, any other byte as
/// `%` and two upper-case hexadecimal digits.
pub open spec fn percent_encoded(b: Seq<u8>) -> Seq<char>
    decreases b.len(),
{
    if b.len() == 0 {
        Seq::empty()
    } else {
        let x = b.last();
        percent_encoded(b.drop_last()) + if is_unreserved(x) {
            seq![x as char]
        } else {
            seq!['%', hex_digit(x as int / 16), hex_digit(x as int % 16)]
        }
    }
}

/// Percent-encodes a query with `urlencoding::encode`, which encodes the
/// UTF-8 bytes of `text` as `percent_encoded` states.
#[verifier::external_body]
fn url_encode(text: &str) -> (r: String)
    ensures
        r@ == percent_encoded(vstd::utf8::encode_utf8(text@)),
{
    urlencoding::encode(text).into_owned()
}

/// The Nominatim search address for `query`, answering in the interface
/// language.
pub open spec fn search_url_spec(query: Seq<char>, language: Seq<char>, system_locale: Seq<char>) -> Seq<char> {
    "https://nominatim.openstreetmap.org/search?q="@ + percent_encoded(vstd::utf8::encode_utf8(query))
        + "&format=json&limit=1&accept-language="@ + i18n::icu_locale_key_text(language, system_locale)
        + "&addressdetails=1"@
}

/// The address of a city search.
pub fn search_url(query: &str, language: &str, system_locale: &str) -> (r: String)
    ensures
        r@ == search_url_spec(query@, language@, system_locale@),
{
    let key = i18n::icu_locale_key(language, system_locale);
    let encoded = url_encode(query);
    let mut out = text::to_owned_string("https://nominatim.openstreetmap.org/search?q=");
    out.append(encoded.as_str());
    out.append("&format=json&limit=1&accept-language=");
    out.append(key.as_str());
    out.append("&addressdetails=1");
    out
}

// ── Named time zones ──────────────────────────────────────────────────────
/// The name of the time zone chrono-tz parses from `text` (its `FromStr`,
/// then `Display`), or `None` where it does not know the text.
pub uninterp spec fn tz_parsed_name(text: Seq<char>) -> Option<Seq<char>>;

/// The name of chrono-tz's time zone at position `i` of `TZ_VARIANTS`, or
/// `None` past its end.
pub uninterp spec fn tz_variant_name(i: int) -> Option<Seq<char>>;

/// Parses a time-zone name with chrono-tz (`text.parse::<Tz>()`) and writes
/// the zone back with `Display`. Claims only the named result.
#[verifier::external_body]
fn parse_time_zone(text: &str) -> (r: Option<String>)
    ensures
        match r {
            Some(t) => tz_parsed_name(text@) == Some(t@),
            None => tz_parsed_name(text@) is None,
        },
{
    match text.parse::<chrono_tz::Tz>() {
        Ok(tz) => Some(tz.to_string()),
        Err(_) => None,
    }
}

/// The length of chrono-tz's `TZ_VARIANTS`: exactly the positions below it
/// hold a zone.
#[verifier::external_body]
fn time_zone_variant_count() -> (n: usize)
    ensures
        forall|j: int| 0 <= j ==> (j < n <==> #[trigger] tz_variant_name(j) is Some),
{
    chrono_tz::TZ_VARIANTS.len()
}

/// The name (`Display`) of `TZ_VARIANTS[i]`.
#[verifier::external_body]
fn time_zone_variant(i: usize) -> (r: String)
    requires
        tz_variant_name(i as int) is Some,
    ensures
        tz_variant_name(i as int) == Some(r@),
{
    chrono_tz::TZ_VARIANTS[i].to_string()
}

/// `n` is the number of chrono-tz's zones.
pub open spec fn is_variant_count(n: nat) -> bool {
    forall|j: int| 0 <= j ==> (j < n <==> #[trigger] tz_variant_name(j) is Some)
}

/// The number of chrono-tz's zones (`TZ_VARIANTS.len()`).
pub open spec fn tz_variant_total() -> nat {
    choose|n: nat| is_variant_count(n)
}

/// Among the first `k` zones, the last whose name lowers to `lower`.
pub open spec fn last_zone_lowering_to(lower: Seq<char>, k: nat) -> Option<Seq<char>>
    decreases k,
{
    if k == 0 {
        None
    } else {
        match tz_variant_name(k - 1) {
            Some(v) => if ascii_lower(v) == lower {
                Some(v)
            } else {
                last_zone_lowering_to(lower, (k - 1) as nat)
            },
            None => last_zone_lowering_to(lower, (k - 1) as nat),
        }
    }
}

/// The canonical name of a time zone given in any case: the name chrono-tz
/// parses the trimmed text to, else the zone whose name equals it ignoring
/// ASCII case (the last such in `TZ_VARIANTS`); `None` for empty text.
pub open spec fn validated_zone_spec(tz: Seq<char>, n: nat) -> Option<Seq<char>> {
    match non_empty_spec(tz) {
        Some(t) => match tz_parsed_name(t) {
            Some(name) => Some(name),
            None => last_zone_lowering_to(ascii_lower(t), n),
        },
        None => None,
    }
}

/// The canonical IANA name of a time zone typed by a user or read from the
/// system, or `None` where it names none.
pub fn validated_time_zone_id(timezone: &str) -> (r: Option<String>)
    ensures
        match r {
            Some(t) => validated_zone_spec(timezone@, tz_variant_total()) == Some(t@),
            None => validated_zone_spec(timezone@, tz_variant_total()) is None,
        },
{
    let trimmed = match non_empty_text(timezone) {
        Some(t) => t,
        None => return None,
    };
    match parse_time_zone(trimmed.as_str()) {
        Some(name) => return Some(name),
        None => {},
    }
    let lower = to_ascii_lower(trimmed.as_str());
    let count = time_zone_variant_count();
    let mut found: Option<String> = None;
    let mut i: usize = 0;
    while i < count
        invariant
            i <= count,
            forall|j: int| 0 <= j ==> (j < count <==> #[trigger] tz_variant_name(j) is Some),
            match found {
                Some(t) => last_zone_lowering_to(lower@, i as nat) == Some(t@),
                None => last_zone_lowering_to(lower@, i as nat) is None,
            },
        decreases count - i,
    {
        let name = time_zone_variant(i);
        let name_lower = to_ascii_lower(name.as_str());
        if text::chars_equal(name_lower.as_slice(), lower.as_slice()) {
            found = Some(name);
        }
        i = i + 1;
    }
    proof {
        assert(is_variant_count(count as nat));
        assert(is_variant_count(tz_variant_total()));
        assert forall|n: nat| #[trigger] is_variant_count(n) implies n == count by {
            if n < count {
                assert(tz_variant_name(n as int) is Some);
            } else if n > count {
                assert(tz_variant_name(count as int) is Some);
            }
        }
    }
    found
}

// ── The system's time zone ───────────────────────────────────────────────
/// Position of the first "/zoneinfo/" in `p` from `i` on, or `p.len()`.
pub open spec fn zoneinfo_pos_from(p: Seq<char>, i: int) -> int
    decreases p.len() - i,
{
    if i < 0 || i + 10 > p.len() {
        p.len() as int
    } else if p.subrange(i, i + 10) == "/zoneinfo/"@ {
        i
    } else {
        zoneinfo_pos_from(p, i + 1)
    }
}

/// What follows the first "/zoneinfo/" of a path, if it has one.
pub open spec fn after_zoneinfo(p: Seq<char>) -> Option<Seq<char>> {
    let i = zoneinfo_pos_from(p, 0);
    if i + 10 <= p.len() {
        Some(p.skip(i + 10))
    } else {
        None
    }
}

fn zone_after_zoneinfo(path: &str) -> (r: Option<String>)
    ensures
        match r {
            Some(t) => after_zoneinfo(path@) == Some(t@),
            None => after_zoneinfo(path@) is None,
        },
{
    let cs = text::chars_of(path);
    let marker = text::chars_of("/zoneinfo/");
    proof {
        reveal_strlit("/zoneinfo/");
    }
    if cs.len() < 10 {
        return None;
    }
    let len = cs.len();
    let last = len - 10;
    let mut i: usize = 0;
    while i <= last
        invariant
            len == cs@.len(),
            cs@ == path@,
            marker@ == "/zoneinfo/"@,
            marker@.len() == 10,
            last + 10 == cs@.len(),
            zoneinfo_pos_from(cs@, 0) == zoneinfo_pos_from(cs@, i as int),
        decreases last + 1 - i,
    {
        if text::chars_match_at(cs.as_slice(), marker.as_slice(), i) {
            let rest = chars_from(cs.as_slice(), i + 10);
            return Some(text::string_from_chars(rest.as_slice()));
        }
        if i == last {
            proof {
                assert(zoneinfo_pos_from(cs@, i + 1) == cs@.len());
            }
            return None;
        }
        i = i + 1;
    }
    None
}

/// The system's time zone from what the system shows: the `TZ` variable,
/// else the contents of /etc/timezone, else the zone named by the target of
/// /etc/localtime after its "/zoneinfo/"; each as a valid zone id.
pub open spec fn system_zone_spec(
    tz_env: Option<Seq<char>>,
    etc_timezone: Option<Seq<char>>,
    localtime_target: Option<Seq<char>>,
    n: nat,
) -> Option<Seq<char>> {
    let from_env = match tz_env {
        Some(t) => validated_zone_spec(t, n),
        None => None,
    };
    let from_file = match etc_timezone {
        Some(t) => validated_zone_spec(t, n),
        None => None,
    };
    let from_link = match localtime_target {
        Some(p) => match after_zoneinfo(p) {
            Some(z) => validated_zone_spec(z, n),
            None => None,
        },
        None => None,
    };
    if from_env is Some {
        from_env
    } else if from_file is Some {
        from_file
    } else {
        from_link
    }
}

/// The system's time zone id, from the value of `TZ`, the contents of
/// /etc/timezone and the target of the /etc/localtime link, where each
/// could be read.
pub fn system_time_zone_from(tz_env: Option<&str>, etc_timezone: Option<&str>, localtime_target: Option<&str>) -> (r:
    Option<String>)
    ensures
        match r {
            Some(t) => system_zone_spec(
                style::opt_text(tz_env),
                style::opt_text(etc_timezone),
                style::opt_text(localtime_target),
                tz_variant_total(),
            ) == Some(t@),
            None => system_zone_spec(
                style::opt_text(tz_env),
                style::opt_text(etc_timezone),
                style::opt_text(localtime_target),
                tz_variant_total(),
            ) is None,
        },
{
    match tz_env {
        Some(t) => match validated_time_zone_id(t) {
            Some(z) => return Some(z),
            None => {},
        },
        None => {},
    }
    match etc_timezone {
        Some(t) => match validated_time_zone_id(t) {
            Some(z) => return Some(z),
            None => {},
        },
        None => {},
    }
    match localtime_target {
        Some(p) => match zone_after_zoneinfo(p) {
            Some(z) => validated_time_zone_id(z.as_str()),
            None => None,
        },
        None => None,
    }
}

// ── Clock times ───────────────────────────────────────────────────────────
/// A wall-clock date and time: Gregorian year, month and day, hour, minute,
/// second, and the weekday counted from Monday (0).
#[derive(Debug, Clone, Copy, PartialEq, Eq, Structural)]
pub struct LocalDateTime {
    pub year: i32,
    pub month: u8,
    pub day: u8,
    pub hour: u8,
    pub minute: u8,
    pub second: u8,
    pub weekday_from_monday: u8,
}

/// What ICU4X's `FixedCalendarDateTimeFormatter::<Gregorian, ET>` with
/// `ET::short()` at minute precision writes for a Gregorian date and time
/// in locale `locale`; `None` where `Date::try_new_gregorian` or
/// `Time::try_new` rejects the values, the locale does not parse, or the
/// formatter does not load.
pub uninterp spec fn icu_weekday_time(locale: Seq<char>, year: int, month: int, day: int, hour: int, minute: int, second: int) -> Option<Seq<char>>;

/// What ICU4X's `NoCalendarFormatter` with `T::hm()` writes for a time of
/// day in locale `locale`, the hour cycle set from `clock` (none for
/// `Auto`, `Clock24` for 24 hours, `Clock12` for 12); `None` where
/// `Time::try_new` rejects the values, the locale does not parse, or the
/// formatter does not load.
pub uninterp spec fn icu_clock_time(locale: Seq<char>, clock: TimeFormat, hour: int, minute: int, second: int) -> Option<Seq<char>>;

/// Formats a date and time with ICU4X (weekday, hour and minute). Claims
/// only the named result.
#[verifier::external_body]
fn weekday_time(locale_text: &str, t: LocalDateTime) -> (r: Option<String>)
    ensures
        match r {
            Some(x) => icu_weekday_time(locale_text@, t.year as int, t.month as int, t.day as int, t.hour as int, t.minute as int, t.second as int) == Some(x@),
            None => icu_weekday_time(locale_text@, t.year as int, t.month as int, t.day as int, t.hour as int, t.minute as int, t.second as int) is None,
        },
{
    let date = match Date::try_new_gregorian(t.year, t.month, t.day) { Ok(d) => d, Err(_) => return None };
    let time = match Time::try_new(t.hour, t.minute, t.second, 0) { Ok(x) => x, Err(_) => return None };
    let locale: Locale = match locale_text.parse() { Ok(l) => l, Err(_) => return None };
    let fieldset = ET::short().with_time_precision(TimePrecision::Minute);
    match FixedCalendarDateTimeFormatter::<Gregorian, _>::try_new(locale.into(), fieldset) {
        Ok(f) => Some(f.format(&icu::time::DateTime { date, time }).to_string()),
        Err(_) => None,
    }
}

/// Formats a time of day with ICU4X (hour and minute) in the chosen hour
/// cycle. Claims only the named result.
#[verifier::external_body]
fn clock_time(locale_text: &str, clock: TimeFormat, hour: u8, minute: u8, second: u8) -> (r: Option<String>)
    ensures
        match r {
            Some(x) => icu_clock_time(locale_text@, clock, hour as int, minute as int, second as int) == Some(x@),
            None => icu_clock_time(locale_text@, clock, hour as int, minute as int, second as int) is None,
        },
{
    let time = match Time::try_new(hour, minute, second, 0) { Ok(x) => x, Err(_) => return None };
    let locale: Locale = match locale_text.parse() { Ok(l) => l, Err(_) => return None };
    let mut prefs = DateTimeFormatterPreferences::from(locale);
    match clock {
        TimeFormat::Auto => {},
        TimeFormat::Hours24 => prefs.hour_cycle = Some(HourCycle::Clock24),
        TimeFormat::Hours12 => prefs.hour_cycle = Some(HourCycle::Clock12),
    }
    match NoCalendarFormatter::try_new(prefs, T::hm()) {
        Ok(f) => Some(f.format(&time).to_string()),
        Err(_) => None,
    }
}

/// The English abbreviation of a weekday counted from Monday (the empty
/// text past Sunday).
pub open spec fn weekday_abbrev(w: int) -> Seq<char> {
    if w == 0 {
        "Mon"@
    } else if w == 1 {
        "Tue"@
    } else if w == 2 {
        "Wed"@
    } else if w == 3 {
        "Thu"@
    } else if w == 4 {
        "Fri"@
    } else if w == 5 {
        "Sat"@
    } else if w == 6 {
        "Sun"@
    } else {
        ""@
    }
}

fn weekday_abbrev_text(w: u8) -> (r: &'static str)
    ensures
        r@ == weekday_abbrev(w as int),
{
    if w == 0 {
        "Mon"
    } else if w == 1 {
        "Tue"
    } else if w == 2 {
        "Wed"
    } else if w == 3 {
        "Thu"
    } else if w == 4 {
        "Fri"
    } else if w == 5 {
        "Sat"
    } else if w == 6 {
        "Sun"
    } else {
        ""
    }
}

/// The plain form of a date and time: weekday abbreviation, hour and
/// minute ("Fri 15:47").
pub open spec fn fallback_time_spec(t: LocalDateTime) -> Seq<char> {
    weekday_abbrev(t.weekday_from_monday as int) + " "@ + text::decimal2_text(t.hour as nat) + ":"@ + text::decimal2_text(
        t.minute as nat,
    )
}

/// The plain form of a time of day: "15:47" on the 24-hour clock (and by
/// default), "03:47 PM" on the 12-hour clock.
pub open spec fn fallback_time_only_spec(t: LocalDateTime, clock: TimeFormat) -> Seq<char> {
    match clock {
        TimeFormat::Hours12 => {
            let h: nat = if t.hour == 0 {
                12
            } else if t.hour > 12 {
                (t.hour - 12) as nat
            } else {
                t.hour as nat
            };
            text::decimal2_text(h) + ":"@ + text::decimal2_text(t.minute as nat) + " "@ + if t.hour < 12 {
                "AM"@
            } else {
                "PM"@
            }
        },
        _ => text::decimal2_text(t.hour as nat) + ":"@ + text::decimal2_text(t.minute as nat),
    }
}

fn fallback_time(t: LocalDateTime) -> (r: String)
    ensures
        r@ == fallback_time_spec(t),
{
    let mut r = text::to_owned_string(weekday_abbrev_text(t.weekday_from_monday));
    r.append(" ");
    text::push_decimal2(&mut r, t.hour as u64);
    r.append(":");
    text::push_decimal2(&mut r, t.minute as u64);
    r
}

fn fallback_time_only(t: LocalDateTime, clock: TimeFormat) -> (r: String)
    ensures
        r@ == fallback_time_only_spec(t, clock),
{
    let mut r = String::new();
    match clock {
        TimeFormat::Hours12 => {
            let h: u8 = if t.hour == 0 {
                12
            } else if t.hour > 12 {
                t.hour - 12
            } else {
                t.hour
            };
            text::push_decimal2(&mut r, h as u64);
            r.append(":");
            text::push_decimal2(&mut r, t.minute as u64);
            if t.hour < 12 {
                r.append(" AM");
            } else {
                r.append(" PM");
            }
            proof {
                reveal_strlit(" AM");
                reveal_strlit(" PM");
                reveal_strlit("AM");
                reveal_strlit("PM");
                reveal_strlit(" ");
                assert(r@ =~= fallback_time_only_spec(t, clock));
            }
        },
        _ => {
            text::push_decimal2(&mut r, t.hour as u64);
            r.append(":");
            text::push_decimal2(&mut r, t.minute as u64);
            proof {
                assert(r@ =~= fallback_time_only_spec(t, clock));
            }
        },
    }
    r
}

/// A date and time as the interface language writes it: ICU's short
/// weekday-and-time form, else the plain form.
pub open spec fn localized_time_spec(t: LocalDateTime, language: Seq<char>, system_locale: Seq<char>) -> Seq<char> {
    match icu_weekday_time(
        lookup_locale(language, system_locale),
        t.year as int,
        t.month as int,
        t.day as int,
        t.hour as int,
        t.minute as int,
        t.second as int,
    ) {
        Some(x) => x,
        None => fallback_time_spec(t),
    }
}

/// A date and time with its weekday, to the minute, in the interface
/// language.
pub fn localized_time(t: LocalDateTime, language: &str, system_locale: &str) -> (r: String)
    ensures
        r@ == localized_time_spec(t, language@, system_locale@),
{
    let locale_text = lookup_locale_of(language, system_locale);
    match weekday_time(locale_text.as_str(), t) {
        Some(x) => x,
        None => fallback_time(t),
    }
}

/// A time of day as the interface language writes it in the chosen hour
/// cycle: ICU's hour-and-minute form, else the plain form.
pub open spec fn localized_time_only_spec(t: LocalDateTime, language: Seq<char>, system_locale: Seq<char>, clock: TimeFormat) -> Seq<char> {
    match icu_clock_time(lookup_locale(language, system_locale), clock, t.hour as int, t.minute as int, t.second as int) {
        Some(x) => x,
        None => fallback_time_only_spec(t, clock),
    }
}

/// A time of day, to the minute, in the interface language and the chosen
/// hour cycle.
pub fn localized_time_only(t: LocalDateTime, language: &str, system_locale: &str, time_format: TimeFormat) -> (r: String)
    ensures
        r@ == localized_time_only_spec(t, language@, system_locale@, time_format),
{
    let locale_text = lookup_locale_of(language, system_locale);
    match clock_time(locale_text.as_str(), time_format, t.hour, t.minute, t.second) {
        Some(x) => x,
        None => fallback_time_only(t, time_format),
    }
}

/// The place a reverse-geocoding answer names: refused (with the
/// translated reason) where the geocoder gives no display name, else the
/// place name shown for the result.
pub fn reverse_geocode_label(result: &GeocodeResult, language: &str, system_locale: &str) -> (r: Result<String, String>)
    ensures
        result.display_name@.len() == 0 <==> r is Err,
        match r {
            Ok(t) => t@ == geocode_label_spec(*result, language@, system_locale@),
            Err(m) => i18n::is_tr_of(m@, "Could not find city name for these coordinates."@),
        },
{
    proof {
        reveal_strlit("Could not find city name for these coordinates.");
    }
    if result.display_name.as_str().is_empty() {
        return Err(i18n::translate("Could not find city name for these coordinates."));
    }
    Ok(geocode_place_name(result, language, system_locale))
}

} // verus!

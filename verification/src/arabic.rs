//! Arabic text for Quran search and display: which characters are marks,
//! whether a query is Arabic, folding letter variants for matching, and
//! Arabic-Indic digits.
use vstd::prelude::*;
use crate::text;

verus! {

/// Marks that search ignores: combining marks, tatweel, tashkeel, Quranic
/// annotation signs, small letters of the Uthmani script, extended marks,
/// and the combining presentation forms.
pub open spec fn is_ignorable_spec(c: char) -> bool {
    let code = c as u32;
    (0x0610 <= code <= 0x061A) || code == 0x0640 || (0x064B <= code <= 0x065F) || (0x06D6 <= code
        <= 0x06ED) || (0x08D3 <= code <= 0x08FF) || (0xFE70 <= code <= 0xFE7F)
}

/// Whether search ignores `character`.
pub fn is_arabic_ignorable(character: char) -> (r: bool)
    ensures
        r == is_ignorable_spec(character),
{
    let code = character as u32;
    (0x0610 <= code && code <= 0x061A) || code == 0x0640 || (0x064B <= code && code <= 0x065F) || (
    0x06D6 <= code && code <= 0x06ED) || (0x08D3 <= code && code <= 0x08FF) || (0xFE70 <= code
        && code <= 0xFE7F)
}

/// A character of the Arabic blocks: Arabic, its supplement, extended-A,
/// and the presentation forms A and B.
pub open spec fn in_arabic_block(c: char) -> bool {
    let code = c as u32;
    (0x0600 <= code <= 0x06FF) || (0x0750 <= code <= 0x077F) || (0x08A0 <= code <= 0x08FF) || (
    0xFB50 <= code <= 0xFDFF) || (0xFE70 <= code <= 0xFEFF)
}

fn arabic_block(c: char) -> (r: bool)
    ensures
        r == in_arabic_block(c),
{
    let code = c as u32;
    (0x0600 <= code && code <= 0x06FF) || (0x0750 <= code && code <= 0x077F) || (0x08A0 <= code
        && code <= 0x08FF) || (0xFB50 <= code && code <= 0xFDFF) || (0xFE70 <= code && code
        <= 0xFEFF)
}

/// A query is Arabic when each of its characters is whitespace, an ignored
/// mark, or in an Arabic block (the empty query included).
pub open spec fn is_arabic_query_spec(q: Seq<char>) -> bool {
    forall|k: int| 0 <= k < q.len() ==> #[trigger] text::is_white_space(q[k]) || is_ignorable_spec(q[k])
        || in_arabic_block(q[k])
}

/// Whether a search query is written in Arabic.
pub fn is_arabic_query(query: &str) -> (r: bool)
    ensures
        r == is_arabic_query_spec(query@),
{
    let cs = text::chars_of(query);
    let mut i: usize = 0;
    while i < cs.len()
        invariant
            cs@ == query@,
            i <= cs@.len(),
            forall|k: int| 0 <= k < i ==> #[trigger] text::is_white_space(cs@[k]) || is_ignorable_spec(cs@[k])
                || in_arabic_block(cs@[k]),
        decreases cs@.len() - i,
    {
        let c = cs[i];
        if !(text::is_whitespace(c) || is_arabic_ignorable(c) || arabic_block(c)) {
            return false;
        }
        i = i + 1;
    }
    true
}

/// Whether `text` holds a character of an Arabic block.
pub open spec fn contains_arabic_spec(t: Seq<char>) -> bool {
    exists|k: int| 0 <= k < t.len() && #[trigger] in_arabic_block(t[k])
}

/// Whether `text` holds Arabic script.
pub fn contains_arabic(text: &str) -> (r: bool)
    ensures
        r == contains_arabic_spec(text@),
{
    let cs = text::chars_of(text);
    let mut i: usize = 0;
    while i < cs.len()
        invariant
            cs@ == text@,
            i <= cs@.len(),
            forall|k: int| 0 <= k < i ==> !#[trigger] in_arabic_block(cs@[k]),
        decreases cs@.len() - i,
    {
        if arabic_block(cs[i]) {
            return true;
        }
        i = i + 1;
    }
    false
}

/// Letter variants folded for matching: the alef forms (with hamza above
/// or below, madda, wasla, wavy hamzas, dagger alef) to alef, alef maqsura
/// and yeh with hamza to yeh, teh marbuta to heh, waw with hamza to waw.
pub open spec fn fold_char(c: char) -> char {
    if c == '\u{0622}' || c == '\u{0623}' || c == '\u{0625}' || c == '\u{0670}' || c == '\u{0671}'
        || c == '\u{0672}' || c == '\u{0673}' {
        '\u{0627}'
    } else if c == '\u{0649}' || c == '\u{0626}' {
        '\u{064A}'
    } else if c == '\u{0629}' {
        '\u{0647}'
    } else if c == '\u{0624}' {
        '\u{0648}'
    } else {
        c
    }
}

/// Folds one letter variant.
pub fn normalize_arabic_char(character: char) -> (r: char)
    ensures
        r == fold_char(character),
{
    match character {
        '\u{0622}' | '\u{0623}' | '\u{0625}' | '\u{0670}' | '\u{0671}' | '\u{0672}' | '\u{0673}' => '\u{0627}',
        '\u{0649}' => '\u{064A}',
        '\u{0629}' => '\u{0647}',
        '\u{0624}' => '\u{0648}',
        '\u{0626}' => '\u{064A}',
        _ => character,
    }
}

/// A character that normalised text keeps: anything below the Arabic block,
/// else anything but the ignored marks and the standalone hamzas.
pub open spec fn kept_char(c: char) -> bool {
    (c as u32) < 0x0600 || (!is_ignorable_spec(c) && c as u32 != 0x0621 && c as u32 != 0x0674)
}

/// `t` with the ignored characters dropped and letter variants folded.
pub open spec fn normalized_spec(t: Seq<char>) -> Seq<char>
    decreases t.len(),
{
    if t.len() == 0 {
        Seq::empty()
    } else {
        let r = normalized_spec(t.drop_last());
        if kept_char(t.last()) {
            r.push(fold_char(t.last()))
        } else {
            r
        }
    }
}

/// Text prepared for matching Arabic queries.
pub fn normalize_arabic(text: &str) -> (r: String)
    ensures
        r@ == normalized_spec(text@),
{
    let cs = text::chars_of(text);
    let mut out: Vec<char> = Vec::new();
    let mut i: usize = 0;
    while i < cs.len()
        invariant
            cs@ == text@,
            i <= cs@.len(),
            out@ == normalized_spec(cs@.take(i as int)),
        decreases cs@.len() - i,
    {
        let c = cs[i];
        proof {
            assert(cs@.take(i + 1).drop_last() =~= cs@.take(i as int));
            assert(cs@.take(i + 1).last() == c);
        }
        let code = c as u32;
        if code < 0x0600 || (!is_arabic_ignorable(c) && code != 0x0621 && code != 0x0674) {
            out.push(normalize_arabic_char(c));
        }
        i = i + 1;
    }
    proof {
        assert(cs@.take(cs@.len() as int) =~= cs@);
    }
    text::string_from_chars(out.as_slice())
}

/// The Arabic-Indic digit of `d` (below 10).
pub open spec fn indic_digit(d: int) -> char {
    (0x0660 + d) as char
}

/// The decimal digits of `n` written with Arabic-Indic digits.
pub open spec fn indic_text(n: nat) -> Seq<char>
    decreases n,
{
    if n < 10 {
        seq![indic_digit(n as int)]
    } else {
        indic_text(n / 10).push(indic_digit((n % 10) as int))
    }
}

fn indic_digit_char(d: u32) -> (c: char)
    requires
        d < 10,
    ensures
        c == indic_digit(d as int),
{
    if d == 0 {
        '\u{0660}'
    } else if d == 1 {
        '\u{0661}'
    } else if d == 2 {
        '\u{0662}'
    } else if d == 3 {
        '\u{0663}'
    } else if d == 4 {
        '\u{0664}'
    } else if d == 5 {
        '\u{0665}'
    } else if d == 6 {
        '\u{0666}'
    } else if d == 7 {
        '\u{0667}'
    } else if d == 8 {
        '\u{0668}'
    } else {
        '\u{0669}'
    }
}

fn push_indic(out: &mut Vec<char>, n: u32)
    ensures
        final(out)@ == old(out)@ + indic_text(n as nat),
    decreases n,
{
    if n >= 10 {
        push_indic(out, n / 10);
    }
    out.push(indic_digit_char(n % 10));
    proof {
        assert(out@ =~= old(out)@ + indic_text(n as nat));
    }
}

/// A number written with Arabic-Indic digits (verse numbers in Arabic).
pub fn to_arabic_indic(num: u32) -> (r: String)
    ensures
        r@ == indic_text(num as nat),
{
    let mut out: Vec<char> = Vec::new();
    push_indic(&mut out, num);
    proof {
        assert(out@ =~= indic_text(num as nat));
    }
    text::string_from_chars(out.as_slice())
}

} // verus!

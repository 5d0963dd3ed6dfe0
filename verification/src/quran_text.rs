//! The Quran's text and translations as the application loads them: the
//! surahs of a language with their verses, the surah list, and the search
//! over verses (normalized Arabic for Arabic queries, case-folded
//! translations otherwise).
use vstd::prelude::*;
use vstd::string::*;
use crate::arabic;
use crate::i18n;
use crate::location;
use crate::text;

verus! {

/// A verse: its number, its text and its translation (empty in the Arabic
/// edition).
#[derive(Clone, Debug)]
pub struct Verse {
    pub id: u32,
    pub text: String,
    pub translation: String,
}

/// A surah of one edition with its verses.
#[derive(Clone, Debug)]
pub struct TranslationSurah {
    pub id: u32,
    pub name: String,
    pub transliteration: String,
    pub translation: String,
    pub surah_type: String,
    pub total_verses: u32,
    pub verses: Vec<Verse>,
}

/// What the chapter list says of a surah.
#[derive(Clone, Debug)]
pub struct SurahInfo {
    pub id: u32,
    pub name: String,
    pub transliteration: String,
    pub surah_type: String,
    pub total_verses: u32,
}

/// A verse of the Arabic edition as its file holds it.
#[derive(Clone, Debug)]
pub struct ArabicVerse {
    pub verse: u32,
    pub text: String,
}

/// A surah as the surah list shows it.
#[derive(Clone, Debug)]
pub struct SurahListItem {
    pub id: u32,
    pub name: String,
    pub transliteration: String,
    pub translation: String,
    pub surah_type: String,
    pub total_verses: u32,
}

/// A verse found by a search.
#[derive(Clone, Debug)]
pub struct VerseMatch {
    pub surah_id: u32,
    pub verse_id: u32,
    pub translation_text: String,
    pub surah_name: String,
    pub surah_translation: String,
}

/// A copy of a verse.
pub fn copy_verse(v: &Verse) -> (c: Verse)
    ensures
        c == *v,
{
    Verse { id: v.id, text: v.text.clone(), translation: v.translation.clone() }
}

/// A copy of a surah with its verses.
pub fn copy_surah(s: &TranslationSurah) -> (c: TranslationSurah)
    ensures
        c.id == s.id,
        c.name == s.name,
        c.transliteration == s.transliteration,
        c.translation == s.translation,
        c.surah_type == s.surah_type,
        c.total_verses == s.total_verses,
        c.verses@ == s.verses@,
{
    let mut verses: Vec<Verse> = Vec::new();
    let mut i: usize = 0;
    while i < s.verses.len()
        invariant
            i <= s.verses@.len(),
            verses@ == s.verses@.take(i as int),
        decreases s.verses@.len() - i,
    {
        verses.push(copy_verse(&s.verses[i]));
        proof {
            assert(s.verses@.take(i + 1) =~= s.verses@.take(i as int).push(s.verses@[i as int]));
        }
        i = i + 1;
    }
    proof {
        assert(s.verses@.take(s.verses@.len() as int) =~= s.verses@);
    }
    TranslationSurah {
        id: s.id,
        name: s.name.clone(),
        transliteration: s.transliteration.clone(),
        translation: s.translation.clone(),
        surah_type: s.surah_type.clone(),
        total_verses: s.total_verses,
        verses,
    }
}

// ── Lookups ───────────────────────────────────────────────────────────────
/// Position of the first surah of `q` from `i` on numbered `id`, or
/// `q.len()`.
pub open spec fn surah_pos_from(q: Seq<TranslationSurah>, id: u32, i: int) -> int
    decreases q.len() - i,
{
    if i >= q.len() || i < 0 {
        q.len() as int
    } else if q[i].id == id {
        i
    } else {
        surah_pos_from(q, id, i + 1)
    }
}

/// Position of the first verse of `v` from `i` on numbered `id`, or
/// `v.len()`.
pub open spec fn verse_pos_from(v: Seq<Verse>, id: u32, i: int) -> int
    decreases v.len() - i,
{
    if i >= v.len() || i < 0 {
        v.len() as int
    } else if v[i].id == id {
        i
    } else {
        verse_pos_from(v, id, i + 1)
    }
}

proof fn lemma_surah_pos_bounds(q: Seq<TranslationSurah>, id: u32, i: int)
    requires
        0 <= i <= q.len(),
    ensures
        i <= surah_pos_from(q, id, i) <= q.len(),
        surah_pos_from(q, id, i) < q.len() ==> q[surah_pos_from(q, id, i)].id == id,
    decreases q.len() - i,
{
    if i < q.len() && q[i].id != id {
        lemma_surah_pos_bounds(q, id, i + 1);
    }
}

proof fn lemma_verse_pos_bounds(v: Seq<Verse>, id: u32, i: int)
    requires
        0 <= i <= v.len(),
    ensures
        i <= verse_pos_from(v, id, i) <= v.len(),
        verse_pos_from(v, id, i) < v.len() ==> v[verse_pos_from(v, id, i)].id == id,
    decreases v.len() - i,
{
    if i < v.len() && v[i].id != id {
        lemma_verse_pos_bounds(v, id, i + 1);
    }
}

/// Where the first surah numbered `id` stands, if any.
fn find_surah(quran: &[TranslationSurah], id: u32) -> (r: Option<usize>)
    ensures
        match r {
            Some(i) => i == surah_pos_from(quran@, id, 0) && i < quran@.len(),
            None => surah_pos_from(quran@, id, 0) == quran@.len(),
        },
{
    let mut i: usize = 0;
    while i < quran.len()
        invariant
            i <= quran@.len(),
            surah_pos_from(quran@, id, 0) == surah_pos_from(quran@, id, i as int),
        decreases quran@.len() - i,
    {
        if quran[i].id == id {
            return Some(i);
        }
        i = i + 1;
    }
    None
}

/// Where the first verse numbered `id` stands, if any.
fn find_verse(verses: &[Verse], id: u32) -> (r: Option<usize>)
    ensures
        match r {
            Some(i) => i == verse_pos_from(verses@, id, 0) && i < verses@.len(),
            None => verse_pos_from(verses@, id, 0) == verses@.len(),
        },
{
    let mut i: usize = 0;
    while i < verses.len()
        invariant
            i <= verses@.len(),
            verse_pos_from(verses@, id, 0) == verse_pos_from(verses@, id, i as int),
        decreases verses@.len() - i,
    {
        if verses[i].id == id {
            return Some(i);
        }
        i = i + 1;
    }
    None
}

/// The first surah numbered `id`, if any.
pub open spec fn surah_spec(q: Seq<TranslationSurah>, id: u32) -> Option<TranslationSurah> {
    let i = surah_pos_from(q, id, 0);
    if i < q.len() {
        Some(q[i])
    } else {
        None
    }
}

/// The first verse numbered `verse` of the first surah numbered `surah`.
pub open spec fn verse_spec(q: Seq<TranslationSurah>, surah: u32, verse: u32) -> Option<Verse> {
    match surah_spec(q, surah) {
        Some(s) => {
            let j = verse_pos_from(s.verses@, verse, 0);
            if j < s.verses@.len() {
                Some(s.verses@[j])
            } else {
                None
            }
        },
        None => None,
    }
}

/// A surah of an edition.
pub fn get_surah(quran: &[TranslationSurah], surah_num: u32) -> (r: Option<TranslationSurah>)
    ensures
        match (r, surah_spec(quran@, surah_num)) {
            (Some(c), Some(s)) => c.id == s.id && c.name == s.name && c.transliteration == s.transliteration
                && c.translation == s.translation && c.surah_type == s.surah_type && c.total_verses
                == s.total_verses && c.verses@ == s.verses@,
            (None, None) => true,
            _ => false,
        },
{
    match find_surah(quran, surah_num) {
        Some(i) => Some(copy_surah(&quran[i])),
        None => None,
    }
}

/// A verse of an edition.
pub fn get_verse(quran: &[TranslationSurah], surah_num: u32, verse: u32) -> (r: Option<Verse>)
    ensures
        r == verse_spec(quran@, surah_num, verse),
{
    match find_surah(quran, surah_num) {
        Some(i) => {
            let verses = &quran[i].verses;
            match find_verse(verses.as_slice(), verse) {
                Some(j) => Some(copy_verse(&verses[j])),
                None => None,
            }
        },
        None => None,
    }
}

/// The Arabic text of a verse, from the Arabic edition.
pub fn get_arabic_text(arabic_quran: &[TranslationSurah], surah_num: u32, verse: u32) -> (r: Option<String>)
    ensures
        match verse_spec(arabic_quran@, surah_num, verse) {
            Some(v) => r == Some(v.text),
            None => r is None,
        },
{
    match get_verse(arabic_quran, surah_num, verse) {
        Some(v) => Some(v.text),
        None => None,
    }
}

/// A surah as the list shows it.
pub open spec fn list_item_of(s: TranslationSurah) -> SurahListItem {
    SurahListItem {
        id: s.id,
        name: s.name,
        transliteration: s.transliteration,
        translation: s.translation,
        surah_type: s.surah_type,
        total_verses: s.total_verses,
    }
}

/// The surah list of an edition, in its order.
pub fn get_surah_list(quran: &[TranslationSurah]) -> (r: Vec<SurahListItem>)
    ensures
        r@.len() == quran@.len(),
        forall|k: int| 0 <= k < quran@.len() ==> #[trigger] r@[k] == list_item_of(quran@[k]),
{
    let mut r: Vec<SurahListItem> = Vec::new();
    let mut i: usize = 0;
    while i < quran.len()
        invariant
            i <= quran@.len(),
            r@.len() == i,
            forall|k: int| 0 <= k < i ==> #[trigger] r@[k] == list_item_of(quran@[k]),
        decreases quran@.len() - i,
    {
        let s = &quran[i];
        r.push(SurahListItem {
            id: s.id,
            name: s.name.clone(),
            transliteration: s.transliteration.clone(),
            translation: s.translation.clone(),
            surah_type: s.surah_type.clone(),
            total_verses: s.total_verses,
        });
        i = i + 1;
    }
    r
}

// ── The chapter list ─────────────────────────────────────────────────────
/// Position of the first chapter entry from `i` on numbered `id`, or
/// `info.len()`.
pub open spec fn info_pos_from(info: Seq<SurahInfo>, id: u32, i: int) -> int
    decreases info.len() - i,
{
    if i >= info.len() || i < 0 {
        info.len() as int
    } else if info[i].id == id {
        i
    } else {
        info_pos_from(info, id, i + 1)
    }
}

/// The first chapter entry numbered `id`, if any.
pub open spec fn info_spec(info: Seq<SurahInfo>, id: u32) -> Option<SurahInfo> {
    let i = info_pos_from(info, id, 0);
    if 0 <= i < info.len() {
        Some(info[i])
    } else {
        None
    }
}

fn find_info(info: &[SurahInfo], id: u32) -> (r: Option<usize>)
    ensures
        match r {
            Some(i) => i < info@.len() && info_spec(info@, id) == Some(info@[i as int]),
            None => info_spec(info@, id) is None,
        },
{
    let mut i: usize = 0;
    while i < info.len()
        invariant
            i <= info@.len(),
            info_pos_from(info@, id, 0) == info_pos_from(info@, id, i as int),
        decreases info@.len() - i,
    {
        if info[i].id == id {
            return Some(i);
        }
        i = i + 1;
    }
    proof {
        assert(info_pos_from(info@, id, i as int) == info@.len());
    }
    None
}

/// The verse count the chapter list gives a surah.
pub fn surah_total_verses(info: &[SurahInfo], surah_num: u32) -> (r: Option<u32>)
    ensures
        r == match info_spec(info@, surah_num) {
            Some(s) => Some(s.total_verses),
            None => None,
        },
{
    match find_info(info, surah_num) {
        Some(i) => Some(info[i].total_verses),
        None => None,
    }
}

/// The verse counts of surahs `from` to 114 summed, a surah missing from
/// the list counting 0.
pub open spec fn verses_from(info: Seq<SurahInfo>, from: int) -> int
    decreases 115 - from,
{
    if from > 114 {
        0
    } else {
        (match info_spec(info, from as u32) {
            Some(s) => s.total_verses as int,
            None => 0,
        }) + verses_from(info, from + 1)
    }
}

/// The number of verses of the whole Quran, by the chapter list.
pub fn total_quran_verses(info: &[SurahInfo]) -> (r: u32)
    requires
        verses_from(info@, 1) <= u32::MAX,
    ensures
        r == verses_from(info@, 1),
{
    let mut total: u64 = 0;
    let mut n: u32 = 1;
    while n <= 114
        invariant
            1 <= n <= 115,
            verses_from(info@, 1) <= u32::MAX,
            total + verses_from(info@, n as int) == verses_from(info@, 1),
        decreases 115 - n,
    {
        proof {
            lemma_verses_from_nonneg(info@, n + 1);
        }
        let count: u32 = match surah_total_verses(info, n) {
            Some(c) => c,
            None => 0,
        };
        total = total + count as u64;
        n = n + 1;
    }
    proof {
        assert(verses_from(info@, 115) == 0);
    }
    total as u32
}

proof fn lemma_verses_from_nonneg(info: Seq<SurahInfo>, from: int)
    ensures
        verses_from(info, from) >= 0,
    decreases 115 - from,
{
    if from <= 114 {
        lemma_verses_from_nonneg(info, from + 1);
    }
}

/// A surah's entry in the surah picker: number and Arabic name for Arabic,
/// number and transliteration otherwise.
pub open spec fn display_entry(s: SurahInfo, arabic: bool) -> Seq<char> {
    text::decimal_text(s.id as nat) + ". "@ + if arabic {
        s.name@
    } else {
        s.transliteration@
    }
}

/// The surah picker's entries, from the chapter list; "Surah 1" to
/// "Surah 114" without one.
pub fn get_surah_display_list(info: Option<&[SurahInfo]>, lang: &str, system_locale: &str) -> (r: Vec<String>)
    ensures
        match info {
            Some(list) => {
                let arabic = i18n::supported_or_english(
                    i18n::base_language(
                        i18n::icu_form(lang@, system_locale@),
                        i18n::icu_language_subtag(i18n::icu_form(lang@, system_locale@)),
                    ),
                ) == "ar"@;
                &&& r@.len() == list@.len()
                &&& forall|k: int| 0 <= k < list@.len() ==> #[trigger] r@[k]@ == display_entry(list@[k], arabic)
            },
            None => {
                &&& r@.len() == 114
                &&& forall|k: int| 0 <= k < 114 ==> #[trigger] r@[k]@ == "Surah "@ + text::decimal_text((k + 1) as nat)
            },
        },
{
    let mut r: Vec<String> = Vec::new();
    match info {
        Some(list) => {
            let is_ar = i18n::is_arabic(lang, system_locale);
            let mut i: usize = 0;
            while i < list.len()
                invariant
                    i <= list@.len(),
                    r@.len() == i,
                    forall|k: int| 0 <= k < i ==> #[trigger] r@[k]@ == display_entry(list@[k], is_ar),
                decreases list@.len() - i,
            {
                let mut line = String::new();
                text::push_decimal(&mut line, list[i].id as u64);
                line.append(". ");
                if is_ar {
                    line.append(list[i].name.as_str());
                } else {
                    line.append(list[i].transliteration.as_str());
                }
                proof {
                    assert(line@ =~= display_entry(list@[i as int], is_ar));
                }
                r.push(line);
                i = i + 1;
            }
        },
        None => {
            let mut n: u32 = 1;
            while n <= 114
                invariant
                    1 <= n <= 115,
                    r@.len() == n - 1,
                    forall|k: int| 0 <= k < n - 1 ==> #[trigger] r@[k]@ == "Surah "@ + text::decimal_text((k + 1) as nat),
                decreases 115 - n,
            {
                let mut line = text::to_owned_string("Surah ");
                text::push_decimal(&mut line, n as u64);
                r.push(line);
                n = n + 1;
            }
        },
    }
    r
}

/// The names shown above a surah.
#[derive(Clone, Debug)]
pub struct SurahMeta {
    pub arabic: String,
    pub transliteration: String,
    pub translated: String,
    pub surah_type: String,
}

/// The names shown above a surah: the Arabic name, transliteration and type
/// from the chapter list, and (outside Arabic) the translated name from the
/// edition of the language, whose name also stands in for a missing Arabic
/// one.
pub fn surah_meta(info: &[SurahInfo], quran: &[TranslationSurah], surah_num: u32, lang: &str) -> (r: SurahMeta)
    ensures
        ({
            let (a, t, ty) = match info_spec(info@, surah_num) {
                Some(s) => (s.name@, s.transliteration@, s.surah_type@),
                None => (Seq::<char>::empty(), Seq::<char>::empty(), Seq::<char>::empty()),
            };
            &&& r.transliteration@ == t
            &&& r.surah_type@ == ty
            &&& if lang@ != "ar"@ && surah_spec(quran@, surah_num) is Some {
                let s = surah_spec(quran@, surah_num)->0;
                &&& r.translated@ == s.translation@
                &&& r.arabic@ == if a.len() == 0 {
                    s.name@
                } else {
                    a
                }
            } else {
                &&& r.translated@ == Seq::<char>::empty()
                &&& r.arabic@ == a
            }
        }),
{
    let mut meta = SurahMeta {
        arabic: String::new(),
        transliteration: String::new(),
        translated: String::new(),
        surah_type: String::new(),
    };
    match find_info(info, surah_num) {
        Some(i) => {
            meta.arabic = info[i].name.clone();
            meta.transliteration = info[i].transliteration.clone();
            meta.surah_type = info[i].surah_type.clone();
        },
        None => {},
    }
    if !text::str_equal(lang, "ar") {
        match find_surah(quran, surah_num) {
            Some(j) => {
                meta.translated = quran[j].translation.clone();
                if meta.arabic.as_str().is_empty() {
                    meta.arabic = quran[j].name.clone();
                }
            },
            None => {},
        }
    }
    meta
}

// ── The Arabic edition ───────────────────────────────────────────────────
/// A verse as values: number, text, translation.
pub open spec fn verse_view(v: Verse) -> (u32, Seq<char>, Seq<char>) {
    (v.id, v.text@, v.translation@)
}

/// A surah as values.
#[verifier::ext_equal]
pub struct SurahV {
    pub id: u32,
    pub name: Seq<char>,
    pub transliteration: Seq<char>,
    pub translation: Seq<char>,
    pub surah_type: Seq<char>,
    pub total_verses: u32,
    pub verses: Seq<(u32, Seq<char>, Seq<char>)>,
}

pub open spec fn surah_view(s: TranslationSurah) -> SurahV {
    SurahV {
        id: s.id,
        name: s.name@,
        transliteration: s.transliteration@,
        translation: s.translation@,
        surah_type: s.surah_type@,
        total_verses: s.total_verses,
        verses: s.verses@.map_values(|v: Verse| verse_view(v)),
    }
}

pub open spec fn surahs_view(q: Seq<TranslationSurah>) -> Seq<SurahV> {
    q.map_values(|s: TranslationSurah| surah_view(s))
}

/// An entry of the Arabic file as values: its key and its (number, text)
/// verses.
pub open spec fn entry_view(e: (String, Vec<ArabicVerse>)) -> (Seq<char>, Seq<(u32, Seq<char>)>) {
    (e.0@, e.1@.map_values(|a: ArabicVerse| (a.verse, a.text@)))
}

/// The surah an entry of the Arabic file makes: numbered by its key (none
/// where the key is not a number), named from the chapter list (empty
/// names, type "meccan" and its own verse count where the list lacks it),
/// with its verses and no translation.
pub open spec fn entry_surah(key: Seq<char>, verses: Seq<(u32, Seq<char>)>, info: Seq<SurahInfo>) -> Option<SurahV> {
    match location::parse_u32_spec(key) {
        Some(n) => {
            let found = info_spec(info, n as u32);
            Some(
                SurahV {
                    id: n as u32,
                    name: match found {
                        Some(i) => i.name@,
                        None => Seq::empty(),
                    },
                    transliteration: match found {
                        Some(i) => i.transliteration@,
                        None => Seq::empty(),
                    },
                    translation: Seq::empty(),
                    surah_type: match found {
                        Some(i) => i.surah_type@,
                        None => "meccan"@,
                    },
                    total_verses: match found {
                        Some(i) => i.total_verses,
                        None => verses.len() as u32,
                    },
                    verses: verses.map_values(|a: (u32, Seq<char>)| (a.0, a.1, Seq::<char>::empty())),
                },
            )
        },
        None => None,
    }
}

/// The surahs the entries make, in the entries' order.
pub open spec fn entry_surahs(entries: Seq<(Seq<char>, Seq<(u32, Seq<char>)>)>, info: Seq<SurahInfo>) -> Seq<SurahV>
    decreases entries.len(),
{
    if entries.len() == 0 {
        Seq::empty()
    } else {
        let r = entry_surahs(entries.drop_last(), info);
        match entry_surah(entries.last().0, entries.last().1, info) {
            Some(x) => r.push(x),
            None => r,
        }
    }
}

/// Where a surah numbered `id` goes into `s`, kept in order by number with
/// later surahs after earlier ones of the same number: before the first
/// surah from `i` on with a larger number.
pub open spec fn id_insert_pos(s: Seq<SurahV>, id: u32, i: int) -> int
    decreases s.len() - i,
{
    if i >= s.len() || i < 0 {
        s.len() as int
    } else if s[i].id > id {
        i
    } else {
        id_insert_pos(s, id, i + 1)
    }
}

/// `s` sorted by surah number, keeping the order of equal numbers (a stable
/// sort).
pub open spec fn sort_by_id(s: Seq<SurahV>) -> Seq<SurahV>
    decreases s.len(),
{
    if s.len() == 0 {
        Seq::empty()
    } else {
        let r = sort_by_id(s.drop_last());
        r.insert(id_insert_pos(r, s.last().id, 0), s.last())
    }
}

/// The Arabic edition's surahs from the entries of its file, in the order
/// the file's map was walked, with the chapter list: sorted by number.
pub open spec fn arabic_edition_spec(entries: Seq<(Seq<char>, Seq<(u32, Seq<char>)>)>, info: Seq<SurahInfo>) -> Seq<SurahV> {
    sort_by_id(entry_surahs(entries, info))
}

proof fn lemma_id_insert_pos_bounds(s: Seq<SurahV>, id: u32, i: int)
    requires
        0 <= i <= s.len(),
    ensures
        i <= id_insert_pos(s, id, i) <= s.len(),
    decreases s.len() - i,
{
    if i < s.len() && s[i].id <= id {
        lemma_id_insert_pos_bounds(s, id, i + 1);
    }
}

fn insert_pos_by_id(out: &Vec<TranslationSurah>, id: u32) -> (p: usize)
    ensures
        p == id_insert_pos(surahs_view(out@), id, 0),
        p <= out@.len(),
{
    let ghost v = surahs_view(out@);
    let mut i: usize = 0;
    while i < out.len()
        invariant
            v == surahs_view(out@),
            i <= out@.len(),
            id_insert_pos(v, id, 0) == id_insert_pos(v, id, i as int),
        decreases out@.len() - i,
    {
        proof {
            assert(v[i as int] == surah_view(out@[i as int]));
        }
        if out[i].id > id {
            return i;
        }
        i = i + 1;
    }
    i
}

/// The surah of one entry of the Arabic file.
fn make_entry_surah(key: &String, verses: &Vec<ArabicVerse>, info: &[SurahInfo]) -> (r: Option<TranslationSurah>)
    ensures
        match r {
            Some(s) => entry_surah(key@, entry_view((*key, *verses)).1, info@) == Some(surah_view(s)),
            None => entry_surah(key@, entry_view((*key, *verses)).1, info@) is None,
        },
{
    let chars = text::chars_of(key.as_str());
    let n = match location::parse_u32(chars.as_slice()) {
        Some(n) => n,
        None => return None,
    };
    let ghost av = entry_view((*key, *verses)).1;
    let mut vs: Vec<Verse> = Vec::new();
    let mut i: usize = 0;
    while i < verses.len()
        invariant
            i <= verses@.len(),
            av == verses@.map_values(|a: ArabicVerse| (a.verse, a.text@)),
            vs@.map_values(|v: Verse| verse_view(v)) == av.take(i as int).map_values(
                |a: (u32, Seq<char>)| (a.0, a.1, Seq::<char>::empty()),
            ),
        decreases verses@.len() - i,
    {
        let ghost before = vs@;
        vs.push(Verse { id: verses[i].verse, text: verses[i].text.clone(), translation: String::new() });
        proof {
            assert(av[i as int] == (verses@[i as int].verse, verses@[i as int].text@));
            assert(av.take(i + 1) =~= av.take(i as int).push(av[i as int]));
            assert(vs@.map_values(|v: Verse| verse_view(v)) =~= before.map_values(|v: Verse| verse_view(v)).push(
                verse_view(vs@[i as int]),
            ));
            assert(av.take(i + 1).map_values(|a: (u32, Seq<char>)| (a.0, a.1, Seq::<char>::empty())) =~= av.take(
                i as int,
            ).map_values(|a: (u32, Seq<char>)| (a.0, a.1, Seq::<char>::empty())).push(
                (av[i as int].0, av[i as int].1, Seq::<char>::empty()),
            ));
        }
        i = i + 1;
    }
    proof {
        assert(av.take(verses@.len() as int) =~= av);
    }
    let count = verses.len() as u32;
    let s = match find_info(info, n) {
        Some(j) => TranslationSurah {
            id: n,
            name: info[j].name.clone(),
            transliteration: info[j].transliteration.clone(),
            translation: String::new(),
            surah_type: info[j].surah_type.clone(),
            total_verses: info[j].total_verses,
            verses: vs,
        },
        None => TranslationSurah {
            id: n,
            name: String::new(),
            transliteration: String::new(),
            translation: String::new(),
            surah_type: text::to_owned_string("meccan"),
            total_verses: count,
            verses: vs,
        },
    };
    proof {
        assert(surah_view(s) =~= entry_surah(key@, av, info@)->0);
    }
    Some(s)
}

/// The Arabic edition from the entries of its file (a map from surah
/// number, as text, to verses, in the order the map was walked) and the
/// chapter list: one surah per entry with a numeric key, sorted by number.
pub fn assemble_arabic_edition(entries: Vec<(String, Vec<ArabicVerse>)>, info: &[SurahInfo]) -> (r: Vec<TranslationSurah>)
    ensures
        surahs_view(r@) == arabic_edition_spec(entries@.map_values(|e: (String, Vec<ArabicVerse>)| entry_view(e)), info@),
{
    let ghost ev = entries@.map_values(|e: (String, Vec<ArabicVerse>)| entry_view(e));
    let mut out: Vec<TranslationSurah> = Vec::new();
    let mut k: usize = 0;
    while k < entries.len()
        invariant
            k <= entries@.len(),
            ev == entries@.map_values(|e: (String, Vec<ArabicVerse>)| entry_view(e)),
            surahs_view(out@) == sort_by_id(entry_surahs(ev.take(k as int), info@)),
        decreases entries@.len() - k,
    {
        proof {
            assert(ev.take(k + 1).drop_last() =~= ev.take(k as int));
            assert(ev.take(k + 1).last() == ev[k as int]);
            assert(ev[k as int] == entry_view(entries@[k as int]));
        }
        let ghost prev = entry_surahs(ev.take(k as int), info@);
        match make_entry_surah(&entries[k].0, &entries[k].1, info) {
            Some(s) => {
                let p = insert_pos_by_id(&out, s.id);
                let ghost before = out@;
                let ghost sv = surah_view(s);
                out.insert(p, s);
                proof {
                    assert(entry_surahs(ev.take(k + 1), info@) == prev.push(sv));
                    assert(prev.push(sv).drop_last() =~= prev);
                    assert(surahs_view(out@) =~= surahs_view(before).insert(p as int, sv));
                }
            },
            None => {
                proof {
                    assert(entry_surahs(ev.take(k + 1), info@) == prev);
                }
            },
        }
        k = k + 1;
    }
    proof {
        assert(ev.take(entries@.len() as int) =~= ev);
    }
    out
}

/// Surah numbers do not decrease along `s`.
pub open spec fn ids_sorted(s: Seq<SurahV>) -> bool {
    forall|i: int, j: int| 0 <= i < j < s.len() ==> #[trigger] s[i].id <= #[trigger] s[j].id
}

proof fn lemma_id_insert_pos_facts(s: Seq<SurahV>, id: u32, i: int)
    requires
        0 <= i <= s.len(),
    ensures
        i <= id_insert_pos(s, id, i) <= s.len(),
        forall|k: int| i <= k < id_insert_pos(s, id, i) ==> #[trigger] s[k].id <= id,
        id_insert_pos(s, id, i) < s.len() ==> s[id_insert_pos(s, id, i)].id > id,
    decreases s.len() - i,
{
    if i < s.len() && s[i].id <= id {
        lemma_id_insert_pos_facts(s, id, i + 1);
    }
}

/// The Arabic edition comes sorted by surah number and holds one surah per
/// entry with a numeric key.
pub proof fn lemma_sort_by_id_sorted(s: Seq<SurahV>)
    ensures
        sort_by_id(s).len() == s.len(),
        ids_sorted(sort_by_id(s)),
    decreases s.len(),
{
    if s.len() > 0 {
        let r = sort_by_id(s.drop_last());
        let x = s.last();
        lemma_sort_by_id_sorted(s.drop_last());
        lemma_id_insert_pos_facts(r, x.id, 0);
        let p = id_insert_pos(r, x.id, 0);
        let t = r.insert(p, x);
        assert forall|i: int, j: int| 0 <= i < j < t.len() implies #[trigger] t[i].id <= #[trigger] t[j].id by {
            if j < p {
                assert(t[i] == r[i] && t[j] == r[j]);
            } else if j == p {
                assert(t[i] == r[i]);
            } else if i < p {
                assert(t[i] == r[i] && t[j] == r[j - 1]);
                assert(r[i].id <= x.id);
                if p < r.len() {
                    assert(r[p].id > x.id);
                    assert(r[i].id <= r[j - 1].id);
                }
            } else if i == p {
                assert(t[j] == r[j - 1]);
                assert(r[p].id <= r[j - 1].id);
            } else {
                assert(t[i] == r[i - 1] && t[j] == r[j - 1]);
            }
        }
    }
}

// ── Search ────────────────────────────────────────────────────────────────
/// What std's `str::to_lowercase` gives for a text (Unicode lowercase
/// mapping, a function of the text alone).
pub uninterp spec fn lowercase_of(s: Seq<char>) -> Seq<char>;

/// Lowercases a text with std's `str::to_lowercase`.
#[verifier::external_body]
fn lowercase(s: &str) -> (r: String)
    ensures
        r@ == lowercase_of(s@),
{
    s.to_lowercase()
}

/// `n` occurs in `h` as a run of consecutive characters (for UTF-8 text,
/// the same as occurring as a run of bytes).
pub open spec fn has_substring(h: Seq<char>, n: Seq<char>) -> bool {
    exists|i: int| 0 <= i && i + n.len() <= h.len() && #[trigger] h.subrange(i, i + n.len()) == n
}

/// Whether `needle` occurs in `hay`.
fn chars_contain(hay: &[char], needle: &[char]) -> (r: bool)
    ensures
        r == has_substring(hay@, needle@),
{
    if needle.len() > hay.len() {
        return false;
    }
    let last = hay.len() - needle.len();
    let mut i: usize = 0;
    while i <= last
        invariant
            last == hay@.len() - needle@.len(),
            needle@.len() <= hay@.len(),
            forall|k: int| 0 <= k < i ==> #[trigger] hay@.subrange(k, k + needle@.len()) != needle@,
        decreases last + 1 - i,
    {
        if text::chars_match_at(hay, needle, i) {
            return true;
        }
        if i == last {
            return false;
        }
        i = i + 1;
    }
    false
}

/// A verse of the search index: surah, verse and its normalized Arabic.
pub struct NormalizedEntry {
    pub surah: u32,
    pub verse: u32,
    pub text: String,
}

pub open spec fn norm_view(e: NormalizedEntry) -> (u32, u32, Seq<char>) {
    (e.surah, e.verse, e.text@)
}

/// The index entries of the surahs `q`, in order: every verse with its
/// normalized text.
pub open spec fn index_spec(q: Seq<TranslationSurah>) -> Seq<(u32, u32, Seq<char>)>
    decreases q.len(),
{
    if q.len() == 0 {
        Seq::empty()
    } else {
        index_spec(q.drop_last()) + q.last().verses@.map_values(
            |v: Verse| (q.last().id, v.id, arabic::normalized_spec(v.text@)),
        )
    }
}

/// The search index of the Arabic edition: every verse with its normalized
/// text.
pub fn build_normalized_index(arabic_quran: &[TranslationSurah]) -> (r: Vec<NormalizedEntry>)
    ensures
        r@.map_values(|e: NormalizedEntry| norm_view(e)) == index_spec(arabic_quran@),
{
    let mut out: Vec<NormalizedEntry> = Vec::new();
    let mut i: usize = 0;
    while i < arabic_quran.len()
        invariant
            i <= arabic_quran@.len(),
            out@.map_values(|e: NormalizedEntry| norm_view(e)) == index_spec(arabic_quran@.take(i as int)),
        decreases arabic_quran@.len() - i,
    {
        let s = &arabic_quran[i];
        let ghost base = out@.map_values(|e: NormalizedEntry| norm_view(e));
        let ghost f = |v: Verse| (s.id, v.id, arabic::normalized_spec(v.text@));
        let mut j: usize = 0;
        while j < s.verses.len()
            invariant
                i < arabic_quran@.len(),
                *s == arabic_quran@[i as int],
                j <= s.verses@.len(),
                f == (|v: Verse| (s.id, v.id, arabic::normalized_spec(v.text@))),
                out@.map_values(|e: NormalizedEntry| norm_view(e)) == base + s.verses@.take(j as int).map_values(f),
            decreases s.verses@.len() - j,
        {
            let ghost before = out@;
            let v = &s.verses[j];
            out.push(NormalizedEntry { surah: s.id, verse: v.id, text: arabic::normalize_arabic(v.text.as_str()) });
            proof {
                assert(out@.map_values(|e: NormalizedEntry| norm_view(e)) =~= before.map_values(
                    |e: NormalizedEntry| norm_view(e),
                ).push(norm_view(out@[before.len() as int])));
                assert(s.verses@.take(j + 1).map_values(f) =~= s.verses@.take(j as int).map_values(f).push(
                    f(s.verses@[j as int]),
                ));
            }
            j = j + 1;
        }
        proof {
            assert(s.verses@.take(s.verses@.len() as int) =~= s.verses@);
            assert(arabic_quran@.take(i + 1).drop_last() =~= arabic_quran@.take(i as int));
            assert(arabic_quran@.take(i + 1).last() == *s);
        }
        i = i + 1;
    }
    proof {
        assert(arabic_quran@.take(arabic_quran@.len() as int) =~= arabic_quran@);
    }
    out
}

/// The normalized text the index holds for a verse: that of its last
/// entry (as a map filled in order keeps it).
pub open spec fn index_lookup(index: Seq<(u32, u32, Seq<char>)>, surah: u32, verse: u32) -> Option<Seq<char>>
    decreases index.len(),
{
    if index.len() == 0 {
        None
    } else if index.last().0 == surah && index.last().1 == verse {
        Some(index.last().2)
    } else {
        index_lookup(index.drop_last(), surah, verse)
    }
}

fn lookup_normalized(index: &[NormalizedEntry], surah: u32, verse: u32) -> (r: Option<&String>)
    ensures
        match r {
            Some(t) => index_lookup(index@.map_values(|e: NormalizedEntry| norm_view(e)), surah, verse) == Some(t@),
            None => index_lookup(index@.map_values(|e: NormalizedEntry| norm_view(e)), surah, verse) is None,
        },
{
    let ghost iv = index@.map_values(|e: NormalizedEntry| norm_view(e));
    let mut i: usize = index.len();
    proof {
        assert(iv.take(iv.len() as int) =~= iv);
    }
    while i > 0
        invariant
            i <= index@.len(),
            iv == index@.map_values(|e: NormalizedEntry| norm_view(e)),
            index_lookup(iv, surah, verse) == index_lookup(iv.take(i as int), surah, verse),
        decreases i,
    {
        proof {
            assert(iv.take(i as int).drop_last() =~= iv.take(i - 1));
            assert(iv.take(i as int).last() == norm_view(index@[i - 1]));
        }
        if index[i - 1].surah == surah && index[i - 1].verse == verse {
            return Some(&index[i - 1].text);
        }
        i = i - 1;
    }
    proof {
        assert(iv.take(0) =~= Seq::<(u32, u32, Seq<char>)>::empty());
    }
    None
}

/// A found verse as values.
pub struct MatchV {
    pub surah_id: u32,
    pub verse_id: u32,
    pub translation_text: Seq<char>,
    pub surah_name: Seq<char>,
    pub surah_translation: Seq<char>,
}

pub open spec fn match_view(m: VerseMatch) -> MatchV {
    MatchV {
        surah_id: m.surah_id,
        verse_id: m.verse_id,
        translation_text: m.translation_text@,
        surah_name: m.surah_name@,
        surah_translation: m.surah_translation@,
    }
}

/// Whether a verse matches, and how it is reported: for an Arabic query,
/// its normalized text holds the normalized query; otherwise its
/// lowercased translation (none in the Arabic edition) holds the lowercased
/// query. The Arabic edition reports the verse's text in place of a
/// translation.
pub open spec fn verse_match(
    s: TranslationSurah,
    v: Verse,
    q: Seq<char>,
    is_ar: bool,
    lang_ar: bool,
    index: Seq<(u32, u32, Seq<char>)>,
) -> Option<MatchV> {
    let matches_arabic = is_ar && match index_lookup(index, s.id, v.id) {
        Some(n) => has_substring(n, q),
        None => false,
    };
    let tt = if lang_ar {
        Seq::<char>::empty()
    } else {
        v.translation@
    };
    let matches_translation = !is_ar && has_substring(lowercase_of(tt), q);
    if matches_arabic || matches_translation {
        Some(
            MatchV {
                surah_id: s.id,
                verse_id: v.id,
                translation_text: if lang_ar {
                    v.text@
                } else {
                    tt
                },
                surah_name: s.name@,
                surah_translation: s.translation@,
            },
        )
    } else {
        None
    }
}

/// The matches among verses `vs` of surah `s`, in order.
pub open spec fn verses_matches(
    s: TranslationSurah,
    vs: Seq<Verse>,
    q: Seq<char>,
    is_ar: bool,
    lang_ar: bool,
    index: Seq<(u32, u32, Seq<char>)>,
) -> Seq<MatchV>
    decreases vs.len(),
{
    if vs.len() == 0 {
        Seq::empty()
    } else {
        let r = verses_matches(s, vs.drop_last(), q, is_ar, lang_ar, index);
        match verse_match(s, vs.last(), q, is_ar, lang_ar, index) {
            Some(m) => r.push(m),
            None => r,
        }
    }
}

/// The matches among the surahs `quran`, in their order.
pub open spec fn all_matches(
    quran: Seq<TranslationSurah>,
    q: Seq<char>,
    is_ar: bool,
    lang_ar: bool,
    index: Seq<(u32, u32, Seq<char>)>,
) -> Seq<MatchV>
    decreases quran.len(),
{
    if quran.len() == 0 {
        Seq::empty()
    } else {
        all_matches(quran.drop_last(), q, is_ar, lang_ar, index) + verses_matches(
            quran.last(),
            quran.last().verses@,
            q,
            is_ar,
            lang_ar,
            index,
        )
    }
}

/// The order key of a verse: surah number in three digits and verse number
/// in four, zero-padded.
pub open spec fn key_text(surah: u32, verse: u32) -> Seq<char> {
    text::zero_padded(text::decimal_text(surah as nat), 3) + text::zero_padded(text::decimal_text(verse as nat), 4)
}

/// The order key of a match.
pub open spec fn match_key(m: MatchV) -> Seq<char> {
    key_text(m.surah_id, m.verse_id)
}

/// `a` comes before `b` in the order of strings (by characters; for the
/// ASCII digits of the keys, the order of their bytes).
pub open spec fn text_lt(a: Seq<char>, b: Seq<char>) -> bool
    decreases a.len(),
{
    if a.len() == 0 {
        b.len() > 0
    } else if b.len() == 0 {
        false
    } else if a[0] != b[0] {
        (a[0] as u32) < (b[0] as u32)
    } else {
        text_lt(a.drop_first(), b.drop_first())
    }
}

/// Where match `x` goes into `s`: before the first match from `i` on with a
/// larger key.
pub open spec fn key_insert_pos(s: Seq<MatchV>, x: MatchV, i: int) -> int
    decreases s.len() - i,
{
    if i >= s.len() || i < 0 {
        s.len() as int
    } else if text_lt(match_key(x), match_key(s[i])) {
        i
    } else {
        key_insert_pos(s, x, i + 1)
    }
}

/// `s` sorted by key, keeping the order of equal keys (a stable sort).
pub open spec fn sort_by_key(s: Seq<MatchV>) -> Seq<MatchV>
    decreases s.len(),
{
    if s.len() == 0 {
        Seq::empty()
    } else {
        let r = sort_by_key(s.drop_last());
        r.insert(key_insert_pos(r, s.last(), 0), s.last())
    }
}

/// What a search finds: nothing for an empty query; otherwise the matching
/// verses of the edition, ordered by surah and verse key.
pub open spec fn search_spec(
    query: Seq<char>,
    lang: Seq<char>,
    quran: Seq<TranslationSurah>,
    index: Seq<(u32, u32, Seq<char>)>,
) -> Seq<MatchV> {
    if query.len() == 0 {
        Seq::empty()
    } else {
        let is_ar = arabic::is_arabic_query_spec(query);
        let q = if is_ar {
            arabic::normalized_spec(query)
        } else {
            lowercase_of(query)
        };
        sort_by_key(all_matches(quran, q, is_ar, lang == "ar"@, index))
    }
}

fn sort_key(surah: u32, verse: u32) -> (r: Vec<char>)
    ensures
        r@ == key_text(surah, verse),
{
    let mut k = String::new();
    text::push_zero_padded(&mut k, surah as u64, 3);
    text::push_zero_padded(&mut k, verse as u64, 4);
    proof {
        assert(k@ =~= key_text(surah, verse));
    }
    text::chars_of(k.as_str())
}

fn text_less(a: &[char], b: &[char]) -> (r: bool)
    ensures
        r == text_lt(a@, b@),
{
    let mut i: usize = 0;
    proof {
        assert(a@.skip(0) =~= a@);
        assert(b@.skip(0) =~= b@);
    }
    while i < a.len() && i < b.len()
        invariant
            i <= a@.len(),
            i <= b@.len(),
            text_lt(a@, b@) == text_lt(a@.skip(i as int), b@.skip(i as int)),
        decreases a@.len() - i,
    {
        proof {
            assert(a@.skip(i as int)[0] == a@[i as int]);
            assert(b@.skip(i as int)[0] == b@[i as int]);
        }
        if a[i] != b[i] {
            return (a[i] as u32) < (b[i] as u32);
        }
        proof {
            assert(a@.skip(i as int).drop_first() =~= a@.skip(i + 1));
            assert(b@.skip(i as int).drop_first() =~= b@.skip(i + 1));
        }
        i = i + 1;
    }
    proof {
        assert(a@.skip(i as int).len() == a@.len() - i);
        assert(b@.skip(i as int).len() == b@.len() - i);
    }
    i >= a.len() && i < b.len()
}

fn key_position(keys: &Vec<Vec<char>>, ghost_matches: Ghost<Seq<MatchV>>, x_key: &Vec<char>, x: Ghost<MatchV>) -> (p: usize)
    requires
        keys@.len() == ghost_matches@.len(),
        forall|k: int| 0 <= k < keys@.len() ==> (#[trigger] keys@[k])@ == match_key(ghost_matches@[k]),
        x_key@ == match_key(x@),
    ensures
        p == key_insert_pos(ghost_matches@, x@, 0),
        p <= keys@.len(),
{
    let mut i: usize = 0;
    while i < keys.len()
        invariant
            i <= keys@.len(),
            keys@.len() == ghost_matches@.len(),
            forall|k: int| 0 <= k < keys@.len() ==> (#[trigger] keys@[k])@ == match_key(ghost_matches@[k]),
            x_key@ == match_key(x@),
            key_insert_pos(ghost_matches@, x@, 0) == key_insert_pos(ghost_matches@, x@, i as int),
        decreases keys@.len() - i,
    {
        proof {
            assert(keys@[i as int]@ == match_key(ghost_matches@[i as int]));
        }
        if text_less(x_key.as_slice(), keys[i].as_slice()) {
            return i;
        }
        i = i + 1;
    }
    i
}

fn match_verse(
    s: &TranslationSurah,
    v: &Verse,
    q: &[char],
    is_ar: bool,
    lang_ar: bool,
    index: &[NormalizedEntry],
) -> (r: Option<VerseMatch>)
    ensures
        match r {
            Some(m) => verse_match(*s, *v, q@, is_ar, lang_ar, index@.map_values(|e: NormalizedEntry| norm_view(e)))
                == Some(match_view(m)),
            None => verse_match(*s, *v, q@, is_ar, lang_ar, index@.map_values(|e: NormalizedEntry| norm_view(e))) is None,
        },
{
    let matches_arabic = is_ar && match lookup_normalized(index, s.id, v.id) {
        Some(n) => {
            let nc = text::chars_of(n.as_str());
            chars_contain(nc.as_slice(), q)
        },
        None => false,
    };
    let tt: String = if lang_ar {
        String::new()
    } else {
        v.translation.clone()
    };
    let matches_translation = !is_ar && {
        let low = lowercase(tt.as_str());
        let lc = text::chars_of(low.as_str());
        chars_contain(lc.as_slice(), q)
    };
    if matches_arabic || matches_translation {
        let shown = if lang_ar {
            v.text.clone()
        } else {
            tt
        };
        Some(
            VerseMatch {
                surah_id: s.id,
                verse_id: v.id,
                translation_text: shown,
                surah_name: s.name.clone(),
                surah_translation: s.translation.clone(),
            },
        )
    } else {
        None
    }
}

/// Searches an edition: an Arabic query (Arabic letters, marks and spaces
/// only) matches normalized Arabic text through the search index, any other
/// query the lowercased translations; the matches come ordered by surah and
/// verse.
pub fn search_quran(query: &str, lang: &str, quran: &[TranslationSurah], index: &[NormalizedEntry]) -> (r: Vec<VerseMatch>)
    ensures
        r@.map_values(|m: VerseMatch| match_view(m)) == search_spec(
            query@,
            lang@,
            quran@,
            index@.map_values(|e: NormalizedEntry| norm_view(e)),
        ),
{
    let mut out: Vec<VerseMatch> = Vec::new();
    if query.is_empty() {
        proof {
            assert(out@.map_values(|m: VerseMatch| match_view(m)) =~= Seq::<MatchV>::empty());
        }
        return out;
    }
    let ghost iv = index@.map_values(|e: NormalizedEntry| norm_view(e));
    let is_ar = arabic::is_arabic_query(query);
    let q: String = if is_ar {
        arabic::normalize_arabic(query)
    } else {
        lowercase(query)
    };
    let qc = text::chars_of(q.as_str());
    proof {
        reveal_strlit("ar");
    }
    let lang_ar = text::str_equal(lang, "ar");
    let ghost found = |qs: Seq<TranslationSurah>| all_matches(qs, qc@, is_ar, lang_ar, iv);
    let mut keys: Vec<Vec<char>> = Vec::new();
    let mut i: usize = 0;
    while i < quran.len()
        invariant
            i <= quran@.len(),
            iv == index@.map_values(|e: NormalizedEntry| norm_view(e)),
            keys@.len() == out@.len(),
            forall|k: int| 0 <= k < keys@.len() ==> (#[trigger] keys@[k])@ == match_key(match_view(out@[k])),
            out@.map_values(|m: VerseMatch| match_view(m)) == sort_by_key(all_matches(quran@.take(i as int), qc@, is_ar, lang_ar, iv)),
        decreases quran@.len() - i,
    {
        let s = &quran[i];
        let ghost base = all_matches(quran@.take(i as int), qc@, is_ar, lang_ar, iv);
        let mut j: usize = 0;
        while j < s.verses.len()
            invariant
                i < quran@.len(),
                *s == quran@[i as int],
                j <= s.verses@.len(),
                iv == index@.map_values(|e: NormalizedEntry| norm_view(e)),
                keys@.len() == out@.len(),
                forall|k: int| 0 <= k < keys@.len() ==> (#[trigger] keys@[k])@ == match_key(match_view(out@[k])),
                out@.map_values(|m: VerseMatch| match_view(m)) == sort_by_key(
                    base + verses_matches(*s, s.verses@.take(j as int), qc@, is_ar, lang_ar, iv),
                ),
            decreases s.verses@.len() - j,
        {
            let ghost prev = base + verses_matches(*s, s.verses@.take(j as int), qc@, is_ar, lang_ar, iv);
            proof {
                assert(s.verses@.take(j + 1).drop_last() =~= s.verses@.take(j as int));
                assert(s.verses@.take(j + 1).last() == s.verses@[j as int]);
            }
            match match_verse(s, &s.verses[j], qc.as_slice(), is_ar, lang_ar, index) {
                Some(m) => {
                    let ghost mv = match_view(m);
                    let ghost before = out@;
                    let ghost sorted = before.map_values(|m: VerseMatch| match_view(m));
                    let key = sort_key(m.surah_id, m.verse_id);
                    proof {
                        assert forall|k: int| 0 <= k < keys@.len() implies (#[trigger] keys@[k])@ == match_key(sorted[k]) by {
                            assert(sorted[k] == match_view(before[k]));
                        }
                    }
                    let p = key_position(&keys, Ghost(sorted), &key, Ghost(mv));
                    out.insert(p, m);
                    keys.insert(p, key);
                    proof {
                        assert(verses_matches(*s, s.verses@.take(j + 1), qc@, is_ar, lang_ar, iv) == verses_matches(
                            *s,
                            s.verses@.take(j as int),
                            qc@,
                            is_ar,
                            lang_ar,
                            iv,
                        ).push(mv));
                        assert(base + verses_matches(*s, s.verses@.take(j + 1), qc@, is_ar, lang_ar, iv) =~= prev.push(mv));
                        assert(prev.push(mv).drop_last() =~= prev);
                        assert(out@.map_values(|m: VerseMatch| match_view(m)) =~= sorted.insert(p as int, mv));
                        assert forall|k: int| 0 <= k < keys@.len() implies (#[trigger] keys@[k])@ == match_key(
                            match_view(out@[k]),
                        ) by {
                            if k < p {
                                assert(out@[k] == before[k]);
                            } else if k > p {
                                assert(out@[k] == before[k - 1]);
                            }
                        }
                    }
                },
                None => {
                    proof {
                        assert(base + verses_matches(*s, s.verses@.take(j + 1), qc@, is_ar, lang_ar, iv) =~= prev);
                    }
                },
            }
            j = j + 1;
        }
        proof {
            assert(s.verses@.take(s.verses@.len() as int) =~= s.verses@);
            assert(quran@.take(i + 1).drop_last() =~= quran@.take(i as int));
            assert(quran@.take(i + 1).last() == *s);
        }
        i = i + 1;
    }
    proof {
        assert(quran@.take(quran@.len() as int) =~= quran@);
    }
    out
}

// ── Surah names in lists and headers ─────────────────────────────────────
/// A surah's title in the surah list: the Arabic name in Arabic, else
/// "transliteration - translation", the transliteration, the Arabic name,
/// or "Surah N", the first of these with its parts present.
pub open spec fn surah_row_title_spec(s: SurahListItem, lang: Seq<char>) -> Seq<char> {
    if s.name@.len() > 0 && lang == "ar"@ {
        s.name@
    } else if s.transliteration@.len() > 0 && s.translation@.len() > 0 {
        s.transliteration@ + " - "@ + s.translation@
    } else if s.transliteration@.len() > 0 {
        s.transliteration@
    } else if s.name@.len() > 0 {
        s.name@
    } else {
        "Surah "@ + text::decimal_text(s.id as nat)
    }
}

pub fn surah_row_title(s: &SurahListItem, lang: &str) -> (r: String)
    ensures
        r@ == surah_row_title_spec(*s, lang@),
{
    if !s.name.as_str().is_empty() && text::str_equal(lang, "ar") {
        s.name.clone()
    } else if !s.transliteration.as_str().is_empty() && !s.translation.as_str().is_empty() {
        let mut r = s.transliteration.clone();
        r.append(" - ");
        r.append(s.translation.as_str());
        r
    } else if !s.transliteration.as_str().is_empty() {
        s.transliteration.clone()
    } else if !s.name.as_str().is_empty() {
        s.name.clone()
    } else {
        let mut r = text::to_owned_string("Surah ");
        text::push_decimal(&mut r, s.id as u64);
        r
    }
}

/// The message naming where a surah of type `t` was revealed: "Meccan" for
/// "meccan", else "Medinan".
pub open spec fn revelation_key(t: Seq<char>) -> Seq<char> {
    if t == "meccan"@ {
        "Meccan"@
    } else {
        "Medinan"@
    }
}

/// A surah's line under its title in the list: where it was revealed and
/// how many verses it has ("Meccan • 7 Verses").
pub fn surah_row_subtitle(s: &SurahListItem) -> (r: String)
    ensures
        exists|place: Seq<char>, verses: Seq<char>|
            #![trigger i18n::is_tr_of(place, revelation_key(s.surah_type@)), i18n::is_tr_of(verses, "Verses"@)]
            i18n::is_tr_of(place, revelation_key(s.surah_type@)) && i18n::is_tr_of(verses, "Verses"@) && r@ == place
                + " • "@ + text::decimal_text(s.total_verses as nat) + " "@ + verses,
{
    proof {
        reveal_strlit("Meccan");
        reveal_strlit("Medinan");
        reveal_strlit("Verses");
    }
    let mut r = if text::str_equal(s.surah_type.as_str(), "meccan") {
        i18n::translate("Meccan")
    } else {
        i18n::translate("Medinan")
    };
    let ghost place = r@;
    r.append(" • ");
    text::push_decimal(&mut r, s.total_verses as u64);
    r.append(" ");
    let verses = i18n::translate("Verses");
    r.append(verses.as_str());
    proof {
        assert(i18n::is_tr_of(place, revelation_key(s.surah_type@)));
        assert(r@ =~= place + " • "@ + text::decimal_text(s.total_verses as nat) + " "@ + verses@);
        assert(i18n::is_tr_of(verses@, "Verses"@));
    }
    r
}

/// A bookmark's title: the surah's Arabic name in Arabic or where no
/// translated name is known, else the translated name.
pub fn bookmark_title(meta: &SurahMeta, lang: &str) -> (r: String)
    ensures
        r@ == if lang@ == "ar"@ || text::trimmed(meta.translated@).len() == 0 {
            meta.arabic@
        } else {
            meta.translated@
        },
{
    let t = text::trim_str(meta.translated.as_str());
    if text::str_equal(lang, "ar") || t.as_str().is_empty() {
        meta.arabic.clone()
    } else {
        meta.translated.clone()
    }
}

/// The Arabic line of a surah's header in the Arabic view: its trimmed
/// name between ornate parentheses.
pub fn surah_header_arabic(meta: &SurahMeta) -> (r: String)
    ensures
        r@ == "﴿ "@ + text::trimmed(meta.arabic@) + " ﴾"@,
{
    let mut r = text::to_owned_string("﴿ ");
    let name = text::trim_str(meta.arabic.as_str());
    r.append(name.as_str());
    r.append(" ﴾");
    r
}

/// The names line of a surah's header in the translation view: the trimmed
/// translated name and transliteration that are not empty, joined by " • ".
pub open spec fn header_names_spec(meta: SurahMeta) -> Option<Seq<char>> {
    let a = text::trimmed(meta.translated@);
    let b = text::trimmed(meta.transliteration@);
    if a.len() > 0 && b.len() > 0 {
        Some(a + " • "@ + b)
    } else if a.len() > 0 {
        Some(a)
    } else if b.len() > 0 {
        Some(b)
    } else {
        None
    }
}

pub fn surah_header_names(meta: &SurahMeta) -> (r: Option<String>)
    ensures
        match r {
            Some(t) => header_names_spec(*meta) == Some(t@),
            None => header_names_spec(*meta) is None,
        },
{
    let a = text::trim_str(meta.translated.as_str());
    let b = text::trim_str(meta.transliteration.as_str());
    if !a.as_str().is_empty() && !b.as_str().is_empty() {
        let mut r = a;
        r.append(" • ");
        r.append(b.as_str());
        Some(r)
    } else if !a.as_str().is_empty() {
        Some(a)
    } else if !b.as_str().is_empty() {
        Some(b)
    } else {
        None
    }
}

/// The revelation line of a surah's header, where its type is known:
/// "Meccan" for a type that is "meccan" in any ASCII case, else "Medinan".
pub fn surah_type_label(surah_type: &str) -> (r: Option<String>)
    ensures
        text::trimmed(surah_type@).len() == 0 <==> r is None,
        match r {
            Some(t) => i18n::is_tr_of(t@, if location::ascii_lower(text::trimmed(surah_type@)) == "meccan"@ {
                "Meccan"@
            } else {
                "Medinan"@
            }),
            None => true,
        },
{
    proof {
        reveal_strlit("Meccan");
        reveal_strlit("Medinan");
        reveal_strlit("meccan");
    }
    let t = text::trim_str(surah_type);
    if t.as_str().is_empty() {
        return None;
    }
    let lower = location::to_ascii_lower(t.as_str());
    let meccan = text::chars_of("meccan");
    if text::chars_equal(lower.as_slice(), meccan.as_slice()) {
        Some(i18n::translate("Meccan"))
    } else {
        Some(i18n::translate("Medinan"))
    }
}

// ── Order of search results ───────────────────────────────────────────────
/// No match of `s` comes after one with a smaller key.
pub open spec fn keys_ordered(s: Seq<MatchV>) -> bool {
    forall|i: int, j: int| 0 <= i < j < s.len() ==> !text_lt(match_key(#[trigger] s[j]), match_key(#[trigger] s[i]))
}

proof fn lemma_text_lt_transitive(a: Seq<char>, b: Seq<char>, c: Seq<char>)
    requires
        text_lt(a, b),
        text_lt(b, c),
    ensures
        text_lt(a, c),
    decreases a.len(),
{
    if a.len() > 0 && b.len() > 0 && c.len() > 0 && a[0] == b[0] && b[0] == c[0] {
        lemma_text_lt_transitive(a.drop_first(), b.drop_first(), c.drop_first());
    }
}

proof fn lemma_text_lt_irreflexive(a: Seq<char>)
    ensures
        !text_lt(a, a),
    decreases a.len(),
{
    if a.len() > 0 {
        lemma_text_lt_irreflexive(a.drop_first());
    }
}

proof fn lemma_key_insert_pos_facts(s: Seq<MatchV>, x: MatchV, i: int)
    requires
        0 <= i <= s.len(),
    ensures
        i <= key_insert_pos(s, x, i) <= s.len(),
        forall|k: int| i <= k < key_insert_pos(s, x, i) ==> !text_lt(match_key(x), match_key(#[trigger] s[k])),
        key_insert_pos(s, x, i) < s.len() ==> text_lt(match_key(x), match_key(s[key_insert_pos(s, x, i)])),
    decreases s.len() - i,
{
    if i < s.len() && !text_lt(match_key(x), match_key(s[i])) {
        lemma_key_insert_pos_facts(s, x, i + 1);
    }
}

/// A search's results come ordered by their surah-and-verse keys, and
/// there are as many as there are matching verses.
pub proof fn lemma_sort_by_key_ordered(s: Seq<MatchV>)
    ensures
        sort_by_key(s).len() == s.len(),
        keys_ordered(sort_by_key(s)),
    decreases s.len(),
{
    if s.len() > 0 {
        let r = sort_by_key(s.drop_last());
        let x = s.last();
        lemma_sort_by_key_ordered(s.drop_last());
        lemma_key_insert_pos_facts(r, x, 0);
        let p = key_insert_pos(r, x, 0);
        let t = r.insert(p, x);
        assert forall|i: int, j: int| 0 <= i < j < t.len() implies !text_lt(
            match_key(#[trigger] t[j]),
            match_key(#[trigger] t[i]),
        ) by {
            if j < p {
                assert(t[i] == r[i] && t[j] == r[j]);
            } else if j == p {
                assert(t[i] == r[i]);
            } else if i < p {
                assert(t[i] == r[i] && t[j] == r[j - 1]);
                assert(!text_lt(match_key(r[j - 1]), match_key(r[i])));
            } else if i == p {
                assert(t[j] == r[j - 1]);
                assert(text_lt(match_key(x), match_key(r[p])));
                if text_lt(match_key(r[j - 1]), match_key(x)) {
                    lemma_text_lt_transitive(match_key(r[j - 1]), match_key(x), match_key(r[p]));
                    if j - 1 > p {
                        assert(!text_lt(match_key(r[j - 1]), match_key(r[p])));
                    } else {
                        lemma_text_lt_irreflexive(match_key(r[p]));
                    }
                }
            } else {
                assert(t[i] == r[i - 1] && t[j] == r[j - 1]);
            }
        }
    }
}

/// The three digits of `n` (below 1000), most significant first.
pub open spec fn digits3(n: int) -> Seq<char> {
    seq![text::digit_char(n / 100), text::digit_char((n / 10) % 10), text::digit_char(n % 10)]
}

/// The four digits of `n` (below 10000), most significant first.
pub open spec fn digits4(n: int) -> Seq<char> {
    seq![
        text::digit_char(n / 1000),
        text::digit_char((n / 100) % 10),
        text::digit_char((n / 10) % 10),
        text::digit_char(n % 10),
    ]
}

proof fn lemma_pad3(n: nat)
    requires
        n < 1000,
    ensures
        text::zero_padded(text::decimal_text(n), 3) == digits3(n as int),
{
    reveal_with_fuel(text::decimal_text, 4);
    if n < 10 {
        assert(text::zero_padded(text::decimal_text(n), 3) =~= digits3(n as int));
    } else if n < 100 {
        assert(text::decimal_text(n) == seq![text::digit_char((n / 10) as int), text::digit_char((n % 10) as int)]);
        assert(text::zero_padded(text::decimal_text(n), 3) =~= digits3(n as int));
    } else {
        assert(text::decimal_text(n / 10) == seq![text::digit_char((n / 100) as int), text::digit_char(((n / 10) % 10) as int)]);
        assert(text::zero_padded(text::decimal_text(n), 3) =~= digits3(n as int));
    }
}

proof fn lemma_pad4(n: nat)
    requires
        n < 10000,
    ensures
        text::zero_padded(text::decimal_text(n), 4) == digits4(n as int),
{
    reveal_with_fuel(text::decimal_text, 5);
    if n < 10 {
        assert(text::zero_padded(text::decimal_text(n), 4) =~= digits4(n as int));
    } else if n < 100 {
        assert(text::decimal_text(n) == seq![text::digit_char((n / 10) as int), text::digit_char((n % 10) as int)]);
        assert(text::zero_padded(text::decimal_text(n), 4) =~= digits4(n as int));
    } else if n < 1000 {
        assert(text::decimal_text(n / 10) == seq![text::digit_char((n / 100) as int), text::digit_char(((n / 10) % 10) as int)]);
        assert(text::zero_padded(text::decimal_text(n), 4) =~= digits4(n as int));
    } else {
        assert(text::decimal_text(n / 100) == seq![text::digit_char((n / 1000) as int), text::digit_char(((n / 100) % 10) as int)]);
        assert(text::decimal_text(n / 10) == seq![text::digit_char((n / 1000) as int), text::digit_char(((n / 100) % 10) as int), text::digit_char(((n / 10) % 10) as int)]);
        assert(text::zero_padded(text::decimal_text(n), 4) =~= digits4(n as int));
    }
}

/// A smaller digit has a smaller character.
proof fn lemma_digit_char_lt(a: int, b: int)
    requires
        0 <= a < b <= 9,
    ensures
        (text::digit_char(a) as u32) < (text::digit_char(b) as u32),
{
}

/// Equal-length texts that agree before position `i` and differ there in
/// the order of their characters are in that order.
proof fn lemma_text_lt_at(a: Seq<char>, b: Seq<char>, i: int)
    requires
        a.len() == b.len(),
        0 <= i < a.len(),
        forall|j: int| 0 <= j < i ==> a[j] == b[j],
        (a[i] as u32) < (b[i] as u32),
    ensures
        text_lt(a, b),
    decreases i,
{
    if i > 0 {
        assert(a[0] == b[0]);
        lemma_text_lt_at(a.drop_first(), b.drop_first(), i - 1);
    }
}

/// `x` spelled as hundreds, tens and units.
proof fn lemma_three_digits(x: int)
    requires
        0 <= x < 1000,
    ensures
        x == 100 * (x / 100) + 10 * ((x / 10) % 10) + x % 10,
        0 <= x / 100 <= 9,
        0 <= (x / 10) % 10 <= 9,
        0 <= x % 10 <= 9,
{
    vstd::arithmetic::div_mod::lemma_fundamental_div_mod(x, 10);
    vstd::arithmetic::div_mod::lemma_fundamental_div_mod(x / 10, 10);
    vstd::arithmetic::div_mod::lemma_div_denominator(x, 10, 10);
    vstd::arithmetic::div_mod::lemma_mod_bound(x, 10);
    vstd::arithmetic::div_mod::lemma_mod_bound(x / 10, 10);
}

/// `x` spelled as thousands, hundreds, tens and units.
proof fn lemma_four_digits(x: int)
    requires
        0 <= x < 10000,
    ensures
        x == 1000 * (x / 1000) + 100 * ((x / 100) % 10) + 10 * ((x / 10) % 10) + x % 10,
        0 <= x / 1000 <= 9,
        0 <= (x / 100) % 10 <= 9,
        0 <= (x / 10) % 10 <= 9,
        0 <= x % 10 <= 9,
{
    vstd::arithmetic::div_mod::lemma_fundamental_div_mod(x, 10);
    vstd::arithmetic::div_mod::lemma_fundamental_div_mod(x / 10, 10);
    vstd::arithmetic::div_mod::lemma_fundamental_div_mod(x / 100, 10);
    vstd::arithmetic::div_mod::lemma_div_denominator(x, 10, 10);
    vstd::arithmetic::div_mod::lemma_div_denominator(x, 100, 10);
    vstd::arithmetic::div_mod::lemma_mod_bound(x, 10);
    vstd::arithmetic::div_mod::lemma_mod_bound(x / 10, 10);
    vstd::arithmetic::div_mod::lemma_mod_bound(x / 100, 10);
}

/// Of two numbers below 1000, the smaller's three digits come first: they
/// agree before some position and are smaller there.
proof fn lemma_digits3_first_difference(x1: int, x2: int) -> (i: int)
    requires
        0 <= x1 < x2 < 1000,
    ensures
        0 <= i < 3,
        forall|j: int| 0 <= j < i ==> digits3(x1)[j] == digits3(x2)[j],
        (digits3(x1)[i] as u32) < (digits3(x2)[i] as u32),
{
    lemma_three_digits(x1);
    lemma_three_digits(x2);
    if x1 / 100 < x2 / 100 {
        lemma_digit_char_lt(x1 / 100, x2 / 100);
        0
    } else if (x1 / 10) % 10 < (x2 / 10) % 10 {
        lemma_digit_char_lt((x1 / 10) % 10, (x2 / 10) % 10);
        1
    } else {
        lemma_digit_char_lt(x1 % 10, x2 % 10);
        2
    }
}

/// Of two numbers below 10000, the smaller's four digits come first.
proof fn lemma_digits4_first_difference(x1: int, x2: int) -> (i: int)
    requires
        0 <= x1 < x2 < 10000,
    ensures
        0 <= i < 4,
        forall|j: int| 0 <= j < i ==> digits4(x1)[j] == digits4(x2)[j],
        (digits4(x1)[i] as u32) < (digits4(x2)[i] as u32),
{
    lemma_four_digits(x1);
    lemma_four_digits(x2);
    if x1 / 1000 < x2 / 1000 {
        lemma_digit_char_lt(x1 / 1000, x2 / 1000);
        0
    } else if (x1 / 100) % 10 < (x2 / 100) % 10 {
        lemma_digit_char_lt((x1 / 100) % 10, (x2 / 100) % 10);
        1
    } else if (x1 / 10) % 10 < (x2 / 10) % 10 {
        lemma_digit_char_lt((x1 / 10) % 10, (x2 / 10) % 10);
        2
    } else {
        lemma_digit_char_lt(x1 % 10, x2 % 10);
        3
    }
}

/// Seven digits compare like the numbers they spell: the key of a smaller
/// (surah, verse) pair comes first.
proof fn lemma_key_text_follows_numbers(s1: u32, v1: u32, s2: u32, v2: u32)
    requires
        s1 < 1000,
        s2 < 1000,
        v1 < 10000,
        v2 < 10000,
        s1 < s2 || (s1 == s2 && v1 < v2),
    ensures
        text_lt(key_text(s1, v1), key_text(s2, v2)),
{
    lemma_pad3(s1 as nat);
    lemma_pad3(s2 as nat);
    lemma_pad4(v1 as nat);
    lemma_pad4(v2 as nat);
    let a = digits3(s1 as int) + digits4(v1 as int);
    let b = digits3(s2 as int) + digits4(v2 as int);
    assert(key_text(s1, v1) == a);
    assert(key_text(s2, v2) == b);
    if s1 < s2 {
        let i = lemma_digits3_first_difference(s1 as int, s2 as int);
        assert forall|j: int| 0 <= j < i implies a[j] == b[j] by {
            assert(a[j] == digits3(s1 as int)[j] && b[j] == digits3(s2 as int)[j]);
        }
        assert(a[i] == digits3(s1 as int)[i] && b[i] == digits3(s2 as int)[i]);
        lemma_text_lt_at(a, b, i);
    } else {
        let i = lemma_digits4_first_difference(v1 as int, v2 as int);
        assert forall|j: int| 0 <= j < 3 + i implies a[j] == b[j] by {
            if j < 3 {
                assert(a[j] == digits3(s1 as int)[j] && b[j] == digits3(s2 as int)[j]);
            } else {
                assert(a[j] == digits4(v1 as int)[j - 3] && b[j] == digits4(v2 as int)[j - 3]);
            }
        }
        assert(a[3 + i] == digits4(v1 as int)[i] && b[3 + i] == digits4(v2 as int)[i]);
        lemma_text_lt_at(a, b, 3 + i);
    }
}

/// Search results come in verse order: by surah number, then by verse
/// number, as numbers (for surah numbers below 1000 and verse numbers
/// below 10000, the widths the order key is written with).
pub proof fn lemma_search_results_in_verse_order(
    query: Seq<char>,
    lang: Seq<char>,
    quran: Seq<TranslationSurah>,
    index: Seq<(u32, u32, Seq<char>)>,
)
    ensures
        ({
            let r = search_spec(query, lang, quran, index);
            forall|i: int, j: int|
                0 <= i < j < r.len() && r[i].surah_id < 1000 && r[j].surah_id < 1000 && r[i].verse_id < 10000
                    && r[j].verse_id < 10000 ==> (#[trigger] r[i]).surah_id < (#[trigger] r[j]).surah_id || (
                r[i].surah_id == r[j].surah_id && r[i].verse_id <= r[j].verse_id)
        }),
{
    let r = search_spec(query, lang, quran, index);
    if query.len() > 0 {
        let is_ar = arabic::is_arabic_query_spec(query);
        let q = if is_ar {
            arabic::normalized_spec(query)
        } else {
            lowercase_of(query)
        };
        lemma_sort_by_key_ordered(all_matches(quran, q, is_ar, lang == "ar"@, index));
    }
    assert forall|i: int, j: int|
        0 <= i < j < r.len() && r[i].surah_id < 1000 && r[j].surah_id < 1000 && r[i].verse_id < 10000
            && r[j].verse_id < 10000 implies (#[trigger] r[i]).surah_id < (#[trigger] r[j]).surah_id || (
        r[i].surah_id == r[j].surah_id && r[i].verse_id <= r[j].verse_id) by {
        assert(!text_lt(match_key(r[j]), match_key(r[i])));
        if r[j].surah_id < r[i].surah_id || (r[j].surah_id == r[i].surah_id && r[j].verse_id < r[i].verse_id) {
            lemma_key_text_follows_numbers(r[j].surah_id, r[j].verse_id, r[i].surah_id, r[i].verse_id);
        }
    }
}

} // verus!

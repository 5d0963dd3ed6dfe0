//! The Madani page layout of the Quran: which verses each page holds, the
//! page of a verse, where recitation stops, and which verse a click on the
//! page's text falls on. The layout is the page index the application
//! ships (first verse of every page, verse count of every surah) and the
//! Arabic text.
use vstd::prelude::*;
use vstd::string::*;
use crate::config::StopCondition;
use crate::i18n;
use crate::text;

verus! {

/// A verse: surah number and verse number.
#[derive(Debug, Clone, Copy, PartialEq, Eq, Structural)]
pub struct VersePos {
    pub surah: u32,
    pub verse: u32,
}

/// `a` comes before `b` in the order of the Quran.
pub open spec fn pos_lt(a: VersePos, b: VersePos) -> bool {
    a.surah < b.surah || (a.surah == b.surah && a.verse < b.verse)
}

fn before(a: VersePos, b: VersePos) -> (r: bool)
    ensures
        r == pos_lt(a, b),
{
    a.surah < b.surah || (a.surah == b.surah && a.verse < b.verse)
}

/// The page index: the first verse of page `p` at position `p - 1` (none
/// where the index lacks the page), the verse count of surah `s` at
/// position `s - 1`, and the number of pages.
pub struct PageIndex {
    pub page_starts: Vec<Option<VersePos>>,
    pub surah_verse_counts: Vec<u32>,
    pub total_pages: u32,
}

impl PageIndex {
    /// The first verse of page `p`.
    pub open spec fn start_of(&self, p: int) -> Option<VersePos> {
        if 1 <= p <= self.page_starts@.len() {
            self.page_starts@[p - 1]
        } else {
            None
        }
    }

    /// The first verse after page `p`: the next page's first verse, or the
    /// end of the Quran (surah 115, verse 0).
    pub open spec fn end_of(&self, p: int) -> VersePos {
        match self.start_of(p + 1) {
            Some(v) => v,
            None => VersePos { surah: 115, verse: 0 },
        }
    }

    /// The verse count of surah `s`, 0 where the index lacks it.
    pub open spec fn count_of(&self, s: int) -> int {
        if 1 <= s <= self.surah_verse_counts@.len() {
            self.surah_verse_counts@[s - 1] as int
        } else {
            0
        }
    }

    /// Surah numbers of page starts lie between 1 and 114, and verse
    /// numbers and counts stay below `u32::MAX`.
    pub open spec fn wf(&self) -> bool {
        &&& forall|k: int| 0 <= k < self.page_starts@.len() ==> (#[trigger] self.page_starts@[k] matches Some(v) ==> 1
            <= v.surah <= 114 && v.verse < u32::MAX)
        &&& forall|k: int| 0 <= k < self.surah_verse_counts@.len() ==> #[trigger] self.surah_verse_counts@[k] < u32::MAX
        &&& self.total_pages < u32::MAX
    }

    fn start(&self, p: u64) -> (r: Option<VersePos>)
        ensures
            r == self.start_of(p as int),
    {
        if 1 <= p && p <= self.page_starts.len() as u64 {
            self.page_starts[(p - 1) as usize]
        } else {
            None
        }
    }

    fn end(&self, p: u64) -> (r: VersePos)
        requires
            p < u64::MAX,
        ensures
            r == self.end_of(p as int),
    {
        match self.start(p + 1) {
            Some(v) => v,
            None => VersePos { surah: 115, verse: 0 },
        }
    }

    fn count(&self, s: u32) -> (r: u32)
        ensures
            r == self.count_of(s as int),
    {
        if 1 <= s && (s as usize) <= self.surah_verse_counts.len() {
            self.surah_verse_counts[(s - 1) as usize]
        } else {
            0
        }
    }
}

/// The first page from `p` to the last whose first verse is at or before
/// `target` and whose end is after it.
pub open spec fn verse_page_from(idx: PageIndex, target: VersePos, p: int) -> Option<int>
    decreases idx.total_pages + 1 - p,
{
    if p > idx.total_pages || p < 1 {
        None
    } else if idx.start_of(p) matches Some(st) && !pos_lt(target, st) && pos_lt(target, idx.end_of(p)) {
        Some(p)
    } else {
        verse_page_from(idx, target, p + 1)
    }
}

/// The page that holds verse `verse` of surah `surah`.
pub open spec fn verse_page_spec(idx: PageIndex, surah: u32, verse: u32) -> Option<int> {
    verse_page_from(idx, VersePos { surah: surah, verse: verse }, 1)
}

/// The page that holds a verse, or `None` where no page of the index does.
pub fn get_verse_page(index: &PageIndex, surah_num: u32, verse: u32) -> (r: Option<u32>)
    ensures
        match r {
            Some(p) => verse_page_spec(*index, surah_num, verse) == Some(p as int),
            None => verse_page_spec(*index, surah_num, verse) is None,
        },
{
    let target = VersePos { surah: surah_num, verse };
    let total = index.total_pages as u64;
    let mut p: u64 = 1;
    while p <= total
        invariant
            total == index.total_pages,
            target == (VersePos { surah: surah_num, verse: verse }),
            1 <= p <= total + 1,
            verse_page_from(*index, target, 1) == verse_page_from(*index, target, p as int),
        decreases total + 1 - p,
    {
        match index.start(p) {
            Some(st) => {
                if !before(target, st) && before(target, index.end(p)) {
                    proof {
                        assert(verse_page_from(*index, target, p as int) == Some(p as int));
                    }
                    return Some(p as u32);
                }
            },
            None => {},
        }
        p = p + 1;
    }
    None
}

/// The verses a page covers, from its first verse up to the next page's
/// first verse (or the end of the Quran), stepping through each surah's
/// verse count; a surah past 114 ends the walk.
pub open spec fn walk_from(idx: PageIndex, cur: VersePos, end: VersePos) -> Seq<VersePos>
    decreases (if cur.surah <= 115 { 115 - cur.surah } else { 0 }), idx.count_of(cur.surah as int) + 1 - cur.verse,
{
    if (cur.surah == end.surah && cur.verse >= end.verse) || cur.surah > end.surah {
        Seq::empty()
    } else {
        let next_verse = cur.verse + 1;
        if next_verse > idx.count_of(cur.surah as int) {
            if cur.surah + 1 > 114 {
                seq![cur]
            } else {
                seq![cur] + walk_from(idx, VersePos { surah: (cur.surah + 1) as u32, verse: 1 }, end)
            }
        } else {
            seq![cur] + walk_from(idx, VersePos { surah: cur.surah, verse: next_verse as u32 }, end)
        }
    }
}

/// The verses of page `page`, or `None` where the index lacks it.
pub open spec fn page_positions_spec(idx: PageIndex, page: int) -> Option<Seq<VersePos>> {
    match idx.start_of(page) {
        Some(st) => Some(walk_from(idx, st, idx.end_of(page))),
        None => None,
    }
}

/// The verses page `page` covers, in order.
pub fn page_positions(index: &PageIndex, page: u32) -> (r: Option<Vec<VersePos>>)
    requires
        index.wf(),
    ensures
        match r {
            Some(v) => page_positions_spec(*index, page as int) == Some(v@),
            None => page_positions_spec(*index, page as int) is None,
        },
{
    let start = match index.start(page as u64) {
        Some(st) => st,
        None => return None,
    };
    let end = index.end(page as u64);
    let mut out: Vec<VersePos> = Vec::new();
    let mut cur = start;
    proof {
        assert(1 <= start.surah <= 114 && start.verse < u32::MAX) by {
            assert(index.page_starts@[page - 1] == Some(start));
        }
    }
    loop
        invariant_except_break
            index.wf(),
            1 <= cur.surah <= 114,
            cur.verse < u32::MAX,
            out@ + walk_from(*index, cur, end) == walk_from(*index, start, end),
        ensures
            out@ == walk_from(*index, start, end),
        decreases (if cur.surah <= 115 { 115 - cur.surah } else { 0 }), index.count_of(cur.surah as int) + 1 - cur.verse,
    {
        if (cur.surah == end.surah && cur.verse >= end.verse) || cur.surah > end.surah {
            proof {
                assert(out@ + Seq::<VersePos>::empty() =~= out@);
            }
            break;
        }
        let ghost before_out = out@;
        let ghost here = cur;
        out.push(cur);
        let next_verse = cur.verse + 1;
        let count = index.count(cur.surah);
        proof {
            if 1 <= cur.surah as int <= index.surah_verse_counts@.len() {
                assert(index.surah_verse_counts@[cur.surah - 1] < u32::MAX);
            }
        }
        if next_verse > count {
            if cur.surah + 1 > 114 {
                proof {
                    assert(out@ =~= before_out + seq![here]);
                    assert(out@ + Seq::<VersePos>::empty() =~= out@);
                }
                break;
            }
            cur = VersePos { surah: cur.surah + 1, verse: 1 };
        } else {
            cur = VersePos { surah: cur.surah, verse: next_verse };
        }
        proof {
            assert(out@ =~= before_out.push(here));
            assert(before_out + (seq![here] + walk_from(*index, cur, end)) =~= out@ + walk_from(*index, cur, end));
        }
    }
    Some(out)
}


// ── Verse texts ───────────────────────────────────────────────────────────
/// The text of one verse.
pub struct VerseText {
    pub id: u32,
    pub text: String,
}

/// The verses of one surah.
pub struct SurahText {
    pub id: u32,
    pub verses: Vec<VerseText>,
}

/// A verse shown on a page.
pub struct PageVerse {
    pub verse: u32,
    pub surah_num: u32,
    pub content: String,
}

/// Position of the first entry of `s` from `i` on whose id is `id`, or
/// `s.len()`.
pub open spec fn first_surah_from(s: Seq<SurahText>, id: u32, i: int) -> int
    decreases s.len() - i,
{
    if i >= s.len() || i < 0 {
        s.len() as int
    } else if s[i].id == id {
        i
    } else {
        first_surah_from(s, id, i + 1)
    }
}

/// Position of the first verse of `v` from `i` on whose id is `id`, or
/// `v.len()`.
pub open spec fn first_verse_from(v: Seq<VerseText>, id: u32, i: int) -> int
    decreases v.len() - i,
{
    if i >= v.len() || i < 0 {
        v.len() as int
    } else if v[i].id == id {
        i
    } else {
        first_verse_from(v, id, i + 1)
    }
}

/// The text of a verse: in the first surah entry with its surah number,
/// the first verse with its verse number.
pub open spec fn text_of(texts: Seq<SurahText>, pos: VersePos) -> Option<Seq<char>> {
    let i = first_surah_from(texts, pos.surah, 0);
    if i < texts.len() {
        let verses = texts[i].verses@;
        let j = first_verse_from(verses, pos.verse, 0);
        if j < verses.len() {
            Some(verses[j].text@)
        } else {
            None
        }
    } else {
        None
    }
}

fn find_text(texts: &[SurahText], pos: VersePos) -> (r: Option<String>)
    ensures
        match r {
            Some(t) => text_of(texts@, pos) == Some(t@),
            None => text_of(texts@, pos) is None,
        },
{
    let mut i: usize = 0;
    while i < texts.len()
        invariant
            i <= texts@.len(),
            first_surah_from(texts@, pos.surah, 0) == first_surah_from(texts@, pos.surah, i as int),
        decreases texts@.len() - i,
    {
        if texts[i].id == pos.surah {
            proof {
                assert(first_surah_from(texts@, pos.surah, i as int) == i as int);
            }
            let verses = &texts[i].verses;
            let mut j: usize = 0;
            while j < verses.len()
                invariant
                    i < texts@.len(),
                    first_surah_from(texts@, pos.surah, 0) == i as int,
                    j <= verses@.len(),
                    verses@ == texts@[i as int].verses@,
                    first_verse_from(verses@, pos.verse, 0) == first_verse_from(verses@, pos.verse, j as int),
                decreases verses@.len() - j,
            {
                if verses[j].id == pos.verse {
                    proof {
                        assert(first_verse_from(verses@, pos.verse, j as int) == j as int);
                    }
                    return Some(verses[j].text.clone());
                }
                j = j + 1;
            }
            return None;
        }
        i = i + 1;
    }
    None
}

/// The verses of `positions` that have a text, with it.
pub open spec fn with_texts(texts: Seq<SurahText>, positions: Seq<VersePos>) -> Seq<(VersePos, Seq<char>)>
    decreases positions.len(),
{
    if positions.len() == 0 {
        Seq::empty()
    } else {
        let r = with_texts(texts, positions.drop_last());
        match text_of(texts, positions.last()) {
            Some(t) => r.push((positions.last(), t)),
            None => r,
        }
    }
}

/// A shown verse as (position, text).
pub open spec fn page_verse_view(v: PageVerse) -> (VersePos, Seq<char>) {
    (VersePos { surah: v.surah_num, verse: v.verse }, v.content@)
}

/// The verses of a page with their texts, or `None` where the index lacks
/// the page.
pub open spec fn page_verses_spec(idx: PageIndex, texts: Seq<SurahText>, page: int) -> Option<Seq<(VersePos, Seq<char>)>> {
    match page_positions_spec(idx, page) {
        Some(ps) => Some(with_texts(texts, ps)),
        None => None,
    }
}

/// The verses page `page` shows, in order, each with its text; verses
/// without a text are left out.
pub fn get_page_verses(index: &PageIndex, texts: &[SurahText], page: u32) -> (r: Option<Vec<PageVerse>>)
    requires
        index.wf(),
    ensures
        match r {
            Some(v) => page_verses_spec(*index, texts@, page as int) == Some(
                v@.map_values(|x: PageVerse| page_verse_view(x)),
            ),
            None => page_verses_spec(*index, texts@, page as int) is None,
        },
{
    let positions = match page_positions(index, page) {
        Some(p) => p,
        None => return None,
    };
    let mut out: Vec<PageVerse> = Vec::new();
    let mut k: usize = 0;
    while k < positions.len()
        invariant
            k <= positions@.len(),
            out@.map_values(|x: PageVerse| page_verse_view(x)) == with_texts(texts@, positions@.take(k as int)),
        decreases positions@.len() - k,
    {
        let pos = positions[k];
        proof {
            assert(positions@.take(k + 1).drop_last() =~= positions@.take(k as int));
            assert(positions@.take(k + 1).last() == pos);
        }
        match find_text(texts, pos) {
            Some(t) => {
                let ghost before = out@;
                out.push(PageVerse { verse: pos.verse, surah_num: pos.surah, content: t });
                proof {
                    assert(out@.map_values(|x: PageVerse| page_verse_view(x)) =~= before.map_values(
                        |x: PageVerse| page_verse_view(x),
                    ).push((pos, text_of(texts@, pos)->0)));
                }
            },
            None => {},
        }
        k = k + 1;
    }
    proof {
        assert(positions@.take(positions@.len() as int) =~= positions@);
    }
    Some(out)
}

/// The surah a page opens with: that of its first shown verse, else 1.
pub fn get_surah_for_page(index: &PageIndex, texts: &[SurahText], page: u32) -> (r: u32)
    requires
        index.wf(),
    ensures
        r == match page_verses_spec(*index, texts@, page as int) {
            Some(vs) => if vs.len() > 0 {
                vs[0].0.surah
            } else {
                1
            },
            None => 1,
        },
{
    match get_page_verses(index, texts, page) {
        Some(vs) => {
            if vs.len() > 0 {
                proof {
                    assert(vs@.map_values(|x: PageVerse| page_verse_view(x))[0] == page_verse_view(vs@[0]));
                }
                vs[0].surah_num
            } else {
                1
            }
        },
        None => 1,
    }
}

/// Whether page `page` shows a verse.
pub fn is_verse_on_page(index: &PageIndex, texts: &[SurahText], surah_num: u32, verse: u32, page: u32) -> (r: bool)
    requires
        index.wf(),
    ensures
        r == match page_verses_spec(*index, texts@, page as int) {
            Some(vs) => exists|k: int| 0 <= k < vs.len() && #[trigger] vs[k].0 == (VersePos { surah: surah_num, verse: verse }),
            None => false,
        },
{
    match get_page_verses(index, texts, page) {
        Some(vs) => {
            let ghost view = vs@.map_values(|x: PageVerse| page_verse_view(x));
            let mut k: usize = 0;
            while k < vs.len()
                invariant
                    k <= vs@.len(),
                    view == vs@.map_values(|x: PageVerse| page_verse_view(x)),
                    page_verses_spec(*index, texts@, page as int) == Some(view),
                    forall|m: int| 0 <= m < k ==> #[trigger] view[m].0 != (VersePos { surah: surah_num, verse: verse }),
                decreases vs@.len() - k,
            {
                if vs[k].surah_num == surah_num && vs[k].verse == verse {
                    proof {
                        let target = VersePos { surah: surah_num, verse: verse };
                        assert(view[k as int] == page_verse_view(vs@[k as int]));
                        assert(view[k as int].0 == target);
                        let spec_vs = page_verses_spec(*index, texts@, page as int)->0;
                        assert(spec_vs == view);
                        assert(spec_vs[k as int].0 == target);
                        assert(exists|m: int| 0 <= m < spec_vs.len() && #[trigger] spec_vs[m].0 == target);
                    }
                    return true;
                }
                proof {
                    assert(view[k as int] == page_verse_view(vs@[k as int]));
                }
                k = k + 1;
            }
            false
        },
        None => false,
    }
}

// ── Clicks on a page ──────────────────────────────────────────────────────
/// A verse's span in the page text, in bytes.
#[derive(Debug, Clone, Copy, PartialEq, Eq, Structural)]
pub struct VerseBoundary {
    pub surah_num: u32,
    pub verse: u32,
    pub byte_start: usize,
    pub byte_end: usize,
}

/// The number of decimal digits of `n` (one for 0).
pub open spec fn digit_count(n: nat) -> nat
    decreases n,
{
    if n < 10 {
        1
    } else {
        1 + digit_count(n / 10)
    }
}

fn digits(n: u32) -> (r: usize)
    ensures
        r == digit_count(n as nat),
        r <= n + 1,
    decreases n,
{
    if n < 10 {
        1
    } else {
        proof {
            assert(n / 10 < n);
        }
        let d = digits(n / 10);
        1 + d
    }
}

/// The bytes a verse takes on the page: its text, seven bytes of markers
/// and two bytes per digit of its number.
pub open spec fn display_len(content_bytes: int, verse: u32) -> int {
    content_bytes + 7 + digit_count(verse as nat) * 2
}

/// The bytes the verses take on the page, each with its separator.
pub open spec fn rendered_len(vs: Seq<PageVerse>) -> int
    decreases vs.len(),
{
    if vs.len() == 0 {
        0
    } else {
        rendered_len(vs.drop_last()) + display_len(
            vstd::utf8::encode_utf8(vs.last().content@).len() as int,
            vs.last().verse,
        ) + 1
    }
}

/// The spans of the verses of a page in its rendered text: each verse's
/// span starts after the ones before it and their separators.
pub fn compute_verse_boundaries(verses: &[PageVerse]) -> (r: Vec<VerseBoundary>)
    requires
        rendered_len(verses@) <= usize::MAX,
    ensures
        r@.len() == verses@.len(),
        forall|k: int| 0 <= k < r@.len() ==> {
            &&& #[trigger] r@[k].surah_num == verses@[k].surah_num
            &&& r@[k].verse == verses@[k].verse
            &&& r@[k].byte_start == rendered_len(verses@.take(k))
            &&& r@[k].byte_end == r@[k].byte_start + display_len(
                vstd::utf8::encode_utf8(verses@[k].content@).len() as int,
                verses@[k].verse,
            )
        },
{
    let mut r: Vec<VerseBoundary> = Vec::new();
    let mut offset: usize = 0;
    let mut k: usize = 0;
    while k < verses.len()
        invariant
            k <= verses@.len(),
            r@.len() == k,
            rendered_len(verses@) <= usize::MAX,
            offset == rendered_len(verses@.take(k as int)),
            forall|m: int| 0 <= m < r@.len() ==> {
                &&& #[trigger] r@[m].surah_num == verses@[m].surah_num
                &&& r@[m].verse == verses@[m].verse
                &&& r@[m].byte_start == rendered_len(verses@.take(m))
                &&& r@[m].byte_end == r@[m].byte_start + display_len(
                    vstd::utf8::encode_utf8(verses@[m].content@).len() as int,
                    verses@[m].verse,
                )
            },
        decreases verses@.len() - k,
    {
        let v = &verses[k];
        proof {
            assert(verses@.take(k + 1).drop_last() =~= verses@.take(k as int));
            lemma_rendered_prefix(verses@, k + 1);
        }
        let n = v.content.as_str().len();
        let len = n + 7 + digits(v.verse) * 2;
        r.push(VerseBoundary { surah_num: v.surah_num, verse: v.verse, byte_start: offset, byte_end: offset + len });
        offset = offset + len + 1;
        k = k + 1;
    }
    r
}

proof fn lemma_rendered_prefix(vs: Seq<PageVerse>, k: int)
    requires
        0 <= k <= vs.len(),
    ensures
        rendered_len(vs.take(k)) <= rendered_len(vs),
    decreases vs.len() - k,
{
    if k < vs.len() {
        lemma_rendered_prefix(vs, k + 1);
        assert(vs.take(k + 1).drop_last() =~= vs.take(k));
    } else {
        assert(vs.take(k) =~= vs);
    }
}

/// The verse whose span holds byte `offset`: the first such span.
pub fn find_verse_at_offset(offset: usize, boundaries: &[VerseBoundary]) -> (r: Option<(u32, u32)>)
    ensures
        match r {
            Some((s, v)) => exists|k: int|
                0 <= k < boundaries@.len() && #[trigger] boundaries@[k].byte_start <= offset < boundaries@[k].byte_end
                    && boundaries@[k].surah_num == s && boundaries@[k].verse == v && forall|m: int|
                    0 <= m < k ==> !(#[trigger] boundaries@[m].byte_start <= offset < boundaries@[m].byte_end),
            None => forall|m: int| 0 <= m < boundaries@.len() ==> !(#[trigger] boundaries@[m].byte_start <= offset
                < boundaries@[m].byte_end),
        },
{
    let mut k: usize = 0;
    while k < boundaries.len()
        invariant
            k <= boundaries@.len(),
            forall|m: int| 0 <= m < k ==> !(#[trigger] boundaries@[m].byte_start <= offset < boundaries@[m].byte_end),
        decreases boundaries@.len() - k,
    {
        let b = boundaries[k];
        if offset >= b.byte_start && offset < b.byte_end {
            return Some((b.surah_num, b.verse));
        }
        k = k + 1;
    }
    None
}

// ── Markers ───────────────────────────────────────────────────────────────
/// The hizb and its quarter (each from 1) of hizb-quarter number `qid`
/// (from 1).
pub fn hizb_and_quarter(qid: u32) -> (r: (u32, u32))
    requires
        qid >= 1,
    ensures
        r.0 == (qid - 1) / 4 + 1,
        r.1 == (qid - 1) % 4 + 1,
        4 * (r.0 - 1) + r.1 == qid,
{
    ((qid - 1) / 4 + 1, (qid - 1) % 4 + 1)
}

/// The page label: the word "page", the page and the number of pages.
pub fn page_label_text(global_page: u32, total_pages: u32) -> (r: String)
    ensures
        exists|w: Seq<char>| #![trigger i18n::is_tr_of(w, "page"@)] i18n::is_tr_of(w, "page"@) && r@ == w + " "@
            + text::decimal_text(global_page as nat) + " / "@ + text::decimal_text(total_pages as nat),
{
    proof {
        reveal_strlit("page");
    }
    let mut r = i18n::translate("page");
    r.append(" ");
    text::push_decimal(&mut r, global_page as u64);
    r.append(" / ");
    text::push_decimal(&mut r, total_pages as u64);
    r
}


// ── Moving through verses ─────────────────────────────────────────────────
/// Position of the first entry of `vs` from `i` on at verse `target`, or
/// `vs.len()`.
pub open spec fn first_at_from(vs: Seq<(VersePos, Seq<char>)>, target: VersePos, i: int) -> int
    decreases vs.len() - i,
{
    if i >= vs.len() || i < 0 {
        vs.len() as int
    } else if vs[i].0 == target {
        i
    } else {
        first_at_from(vs, target, i + 1)
    }
}

/// The verse recited after `target`: the next one shown on its page, else
/// the first one shown on the next page.
pub open spec fn next_verse_spec(idx: PageIndex, texts: Seq<SurahText>, target: VersePos) -> Option<VersePos> {
    match verse_page_spec(idx, target.surah, target.verse) {
        Some(p) => match page_verses_spec(idx, texts, p) {
            Some(vs) => {
                let k = first_at_from(vs, target, 0);
                if k >= vs.len() {
                    None
                } else if k + 1 < vs.len() {
                    Some(vs[k + 1].0)
                } else {
                    match page_verses_spec(idx, texts, p + 1) {
                        Some(ws) => if ws.len() > 0 {
                            Some(ws[0].0)
                        } else {
                            None
                        },
                        None => None,
                    }
                }
            },
            None => None,
        },
        None => None,
    }
}

proof fn lemma_verse_page_bounds(idx: PageIndex, target: VersePos, p: int)
    ensures
        verse_page_from(idx, target, p) matches Some(q) ==> 1 <= q <= idx.total_pages,
    decreases idx.total_pages + 1 - p,
{
    if 1 <= p <= idx.total_pages {
        lemma_verse_page_bounds(idx, target, p + 1);
    }
}

/// The verse after a verse in recitation order.
pub fn next_verse_on_page_or_next(index: &PageIndex, texts: &[SurahText], surah_num: u32, verse: u32) -> (r: Option<(u32, u32)>)
    requires
        index.wf(),
    ensures
        match r {
            Some((s, v)) => next_verse_spec(*index, texts@, VersePos { surah: surah_num, verse: verse }) == Some(
                VersePos { surah: s, verse: v },
            ),
            None => next_verse_spec(*index, texts@, VersePos { surah: surah_num, verse: verse }) is None,
        },
{
    let target = VersePos { surah: surah_num, verse };
    let page = match get_verse_page(index, surah_num, verse) {
        Some(p) => p,
        None => return None,
    };
    proof {
        lemma_verse_page_bounds(*index, target, 1);
    }
    let verses = match get_page_verses(index, texts, page) {
        Some(v) => v,
        None => return None,
    };
    let ghost view = verses@.map_values(|x: PageVerse| page_verse_view(x));
    proof {
        assert(page <= index.total_pages);
    }
    let mut k: usize = 0;
    while k < verses.len()
        invariant
            index.wf(),
            target == (VersePos { surah: surah_num, verse: verse }),
            page <= index.total_pages,
            verse_page_spec(*index, surah_num, verse) == Some(page as int),
            page_verses_spec(*index, texts@, page as int) == Some(view),
            k <= verses@.len(),
            view == verses@.map_values(|x: PageVerse| page_verse_view(x)),
            first_at_from(view, target, 0) == first_at_from(view, target, k as int),
        decreases verses@.len() - k,
    {
        proof {
            assert(view[k as int] == page_verse_view(verses@[k as int]));
        }
        if verses[k].surah_num == surah_num && verses[k].verse == verse {
            proof {
                assert(view[k as int].0 == target);
                assert(first_at_from(view, target, k as int) == k);
            }
            if k + 1 < verses.len() {
                proof {
                    assert(view[k + 1] == page_verse_view(verses@[k + 1]));
                }
                return Some((verses[k + 1].surah_num, verses[k + 1].verse));
            }
            let next = match get_page_verses(index, texts, page + 1) {
                Some(n) => n,
                None => return None,
            };
            if next.len() > 0 {
                proof {
                    assert(next@.map_values(|x: PageVerse| page_verse_view(x))[0] == page_verse_view(next@[0]));
                }
                return Some((next[0].surah_num, next[0].verse));
            }
            return None;
        }
        proof {
            assert(view[k as int].0 != target);
        }
        k = k + 1;
    }
    None
}

// ── Where recitation stops ────────────────────────────────────────────────
/// A marker of the juz or hizb-quarter tables: the verse it begins at and
/// its number.
#[derive(Debug, Clone, Copy, PartialEq, Eq, Structural)]
pub struct MarkerEntry {
    pub surah: u32,
    pub verse: u32,
    pub id: u32,
}

/// The number a table gives a verse: that of its last entry for the verse
/// (as a map filled in order keeps it), if any.
pub open spec fn marker_lookup(entries: Seq<MarkerEntry>, pos: VersePos) -> Option<u32>
    decreases entries.len(),
{
    if entries.len() == 0 {
        None
    } else if entries.last().surah == pos.surah && entries.last().verse == pos.verse {
        Some(entries.last().id)
    } else {
        marker_lookup(entries.drop_last(), pos)
    }
}

/// The larger of a best-so-far marker number and a new one.
pub open spec fn keep_larger(best: Option<u32>, found: Option<u32>) -> Option<u32> {
    match found {
        None => best,
        Some(id) => match best {
            Some(prev) => Some(if prev >= id { prev } else { id }),
            None => Some(id),
        },
    }
}

/// The largest number the table gives a verse shown in `vs`, if any.
pub open spec fn best_marker_in(entries: Seq<MarkerEntry>, vs: Seq<(VersePos, Seq<char>)>) -> Option<u32>
    decreases vs.len(),
{
    if vs.len() == 0 {
        None
    } else {
        keep_larger(best_marker_in(entries, vs.drop_last()), marker_lookup(entries, vs.last().0))
    }
}

/// Walking the marker list from position `i` while its markers lie at or
/// before `pos`: the number of the last one passed (`best` if none).
pub open spec fn marker_before_from(list: Seq<MarkerEntry>, pos: VersePos, i: int, best: Option<u32>) -> Option<u32>
    decreases list.len() - i,
{
    if i >= list.len() || i < 0 {
        best
    } else if !pos_lt(pos, VersePos { surah: list[i].surah, verse: list[i].verse }) {
        marker_before_from(list, pos, i + 1, Some(list[i].id))
    } else {
        best
    }
}

/// The marker (juz or hizb quarter) a page is labelled with: the largest
/// number of a verse it shows, else that of the last marker at or before
/// its first verse.
pub open spec fn marker_id_spec(
    idx: PageIndex,
    texts: Seq<SurahText>,
    entries: Seq<MarkerEntry>,
    list: Seq<MarkerEntry>,
    page: int,
) -> Option<u32> {
    match page_verses_spec(idx, texts, page) {
        None => None,
        Some(vs) => {
            let b = best_marker_in(entries, vs);
            if b is Some {
                b
            } else {
                match idx.start_of(page) {
                    Some(st) => marker_before_from(list, st, 0, None),
                    None => None,
                }
            }
        },
    }
}

/// The marker a page is labelled with, from the table of markers by verse
/// (`entries`, in file order) and the marker list (`list`, in the order of
/// the Quran).
pub fn marker_id_for_page(
    index: &PageIndex,
    texts: &[SurahText],
    entries: &[MarkerEntry],
    list: &[MarkerEntry],
    page: u32,
) -> (r: Option<u32>)
    requires
        index.wf(),
    ensures
        r == marker_id_spec(*index, texts@, entries@, list@, page as int),
{
    let verses = match get_page_verses(index, texts, page) {
        Some(v) => v,
        None => return None,
    };
    let ghost view = verses@.map_values(|x: PageVerse| page_verse_view(x));
    let mut best_in_page: Option<u32> = None;
    let mut k: usize = 0;
    while k < verses.len()
        invariant
            k <= verses@.len(),
            view == verses@.map_values(|x: PageVerse| page_verse_view(x)),
            best_in_page == best_marker_in(entries@, view.take(k as int)),
        decreases verses@.len() - k,
    {
        proof {
            assert(view[k as int] == page_verse_view(verses@[k as int]));
            assert(view.take(k + 1).drop_last() =~= view.take(k as int));
            assert(view.take(k + 1).last() == view[k as int]);
        }
        let found = lookup_marker(entries, VersePos { surah: verses[k].surah_num, verse: verses[k].verse });
        match found {
            Some(id) => {
                best_in_page = match best_in_page {
                    Some(prev) => Some(if prev >= id { prev } else { id }),
                    None => Some(id),
                };
            },
            None => {},
        }
        k = k + 1;
    }
    proof {
        assert(view.take(view.len() as int) =~= view);
    }
    if best_in_page.is_some() {
        return best_in_page;
    }
    let start = match index.start(page as u64) {
        Some(st) => st,
        None => return None,
    };
    let mut best: Option<u32> = None;
    let mut i: usize = 0;
    while i < list.len()
        invariant_except_break
            i <= list@.len(),
            marker_before_from(list@, start, 0, None) == marker_before_from(list@, start, i as int, best),
        ensures
            marker_before_from(list@, start, 0, None) == best,
        decreases list@.len() - i,
    {
        let m = list[i];
        if !before(start, VersePos { surah: m.surah, verse: m.verse }) {
            best = Some(m.id);
        } else {
            break;
        }
        i = i + 1;
    }
    best
}

/// The juz, hizb and hizb quarter a page is labelled with.
#[derive(Debug, Clone, Copy, PartialEq, Eq, Structural)]
pub struct PageMarkers {
    pub juz: Option<u32>,
    pub hizb: Option<u32>,
    pub quarter: Option<u32>,
}

/// The markers of a page: its juz, and the hizb and quarter of its hizb
/// quarter.
pub fn page_markers_for_page(
    index: &PageIndex,
    texts: &[SurahText],
    juz_entries: &[MarkerEntry],
    juz_list: &[MarkerEntry],
    hizb_entries: &[MarkerEntry],
    hizb_list: &[MarkerEntry],
    page: u32,
) -> (r: PageMarkers)
    requires
        index.wf(),
        forall|k: int| 0 <= k < hizb_entries@.len() ==> #[trigger] hizb_entries@[k].id >= 1,
        forall|k: int| 0 <= k < hizb_list@.len() ==> #[trigger] hizb_list@[k].id >= 1,
    ensures
        r.juz == marker_id_spec(*index, texts@, juz_entries@, juz_list@, page as int),
        match marker_id_spec(*index, texts@, hizb_entries@, hizb_list@, page as int) {
            Some(q) => r.hizb == Some(((q - 1) / 4 + 1) as u32) && r.quarter == Some(((q - 1) % 4 + 1) as u32),
            None => r.hizb is None && r.quarter is None,
        },
{
    let juz = marker_id_for_page(index, texts, juz_entries, juz_list, page);
    let qid = marker_id_for_page(index, texts, hizb_entries, hizb_list, page);
    proof {
        if qid is Some {
            lemma_marker_id_from_tables(*index, texts@, hizb_entries@, hizb_list@, page as int);
        }
    }
    match qid {
        Some(q) => {
            let (hizb, quarter) = hizb_and_quarter(q);
            PageMarkers { juz, hizb: Some(hizb), quarter: Some(quarter) }
        },
        None => PageMarkers { juz, hizb: None, quarter: None },
    }
}

/// A marker number found for a page is one the tables hold.
proof fn lemma_marker_id_from_tables(
    idx: PageIndex,
    texts: Seq<SurahText>,
    entries: Seq<MarkerEntry>,
    list: Seq<MarkerEntry>,
    page: int,
)
    requires
        forall|k: int| 0 <= k < entries.len() ==> #[trigger] entries[k].id >= 1,
        forall|k: int| 0 <= k < list.len() ==> #[trigger] list[k].id >= 1,
    ensures
        marker_id_spec(idx, texts, entries, list, page) matches Some(q) ==> q >= 1,
{
    match page_verses_spec(idx, texts, page) {
        None => {},
        Some(vs) => {
            lemma_best_marker_positive(entries, vs);
            match idx.start_of(page) {
                Some(st) => lemma_marker_before_positive(list, st, 0, None),
                None => {},
            }
        },
    }
}

proof fn lemma_marker_lookup_positive(entries: Seq<MarkerEntry>, pos: VersePos)
    requires
        forall|k: int| 0 <= k < entries.len() ==> #[trigger] entries[k].id >= 1,
    ensures
        marker_lookup(entries, pos) matches Some(q) ==> q >= 1,
    decreases entries.len(),
{
    if entries.len() > 0 {
        assert(entries.last() == entries[entries.len() - 1]);
        lemma_marker_lookup_positive(entries.drop_last(), pos);
    }
}

proof fn lemma_best_marker_positive(entries: Seq<MarkerEntry>, vs: Seq<(VersePos, Seq<char>)>)
    requires
        forall|k: int| 0 <= k < entries.len() ==> #[trigger] entries[k].id >= 1,
    ensures
        best_marker_in(entries, vs) matches Some(q) ==> q >= 1,
    decreases vs.len(),
{
    if vs.len() > 0 {
        lemma_best_marker_positive(entries, vs.drop_last());
        lemma_marker_lookup_positive(entries, vs.last().0);
    }
}

proof fn lemma_marker_before_positive(list: Seq<MarkerEntry>, pos: VersePos, i: int, best: Option<u32>)
    requires
        forall|k: int| 0 <= k < list.len() ==> #[trigger] list[k].id >= 1,
        best matches Some(q) ==> q >= 1,
    ensures
        marker_before_from(list, pos, i, best) matches Some(q) ==> q >= 1,
    decreases list.len() - i,
{
    if 0 <= i < list.len() && !pos_lt(pos, VersePos { surah: list[i].surah, verse: list[i].verse }) {
        lemma_marker_before_positive(list, pos, i + 1, Some(list[i].id));
    }
}

fn lookup_marker(entries: &[MarkerEntry], pos: VersePos) -> (r: Option<u32>)
    ensures
        r == marker_lookup(entries@, pos),
{
    let mut i: usize = entries.len();
    proof {
        assert(entries@.take(entries@.len() as int) =~= entries@);
    }
    while i > 0
        invariant
            i <= entries@.len(),
            marker_lookup(entries@, pos) == marker_lookup(entries@.take(i as int), pos),
        decreases i,
    {
        let e = entries[i - 1];
        proof {
            assert(entries@.take(i as int).drop_last() =~= entries@.take(i - 1));
            assert(entries@.take(i as int).last() == e);
        }
        if e.surah == pos.surah && e.verse == pos.verse {
            return Some(e.id);
        }
        i = i - 1;
    }
    proof {
        assert(entries@.take(0) =~= Seq::<MarkerEntry>::empty());
    }
    None
}

/// The verse count of surah `s` in the surah list ((number, verses) pairs,
/// the first entry for the surah), if listed.
pub open spec fn surah_total_from(totals: Seq<(u32, u32)>, s: u32, i: int) -> Option<u32>
    decreases totals.len() - i,
{
    if i >= totals.len() || i < 0 {
        None
    } else if totals[i].0 == s {
        Some(totals[i].1)
    } else {
        surah_total_from(totals, s, i + 1)
    }
}

fn surah_total(totals: &[(u32, u32)], s: u32) -> (r: Option<u32>)
    ensures
        r == surah_total_from(totals@, s, 0),
{
    let mut i: usize = 0;
    while i < totals.len()
        invariant
            i <= totals@.len(),
            surah_total_from(totals@, s, 0) == surah_total_from(totals@, s, i as int),
        decreases totals@.len() - i,
    {
        if totals[i].0 == s {
            return Some(totals[i].1);
        }
        i = i + 1;
    }
    None
}

/// Walking on from verse `vn` of surah `ns` while the verses stay in juz
/// `juz`: the last verse still in it.
pub open spec fn juz_walk(juz: Seq<MarkerEntry>, totals: Seq<(u32, u32)>, cur: u32, ns: int, vn: int, last: VersePos) -> VersePos
    decreases (if ns <= 115 { 115 - ns } else { 0 }), (match surah_total_from(totals, ns as u32, 0) {
        Some(t) => t as int,
        None => u32::MAX as int,
    }) + 1 - vn,
{
    if ns > 114 || ns < 0 {
        last
    } else {
        let total: int = match surah_total_from(totals, ns as u32, 0) {
            Some(t) => t as int,
            None => u32::MAX as int,
        };
        if vn > total || vn < 0 {
            juz_walk(juz, totals, cur, ns + 1, 1, last)
        } else {
            match marker_lookup(juz, VersePos { surah: ns as u32, verse: vn as u32 }) {
                Some(j) => if j == cur {
                    juz_walk(juz, totals, cur, ns, vn + 1, VersePos { surah: ns as u32, verse: vn as u32 })
                } else {
                    last
                },
                None => last,
            }
        }
    }
}

/// Where continuous recitation from a verse stops: nowhere, at that verse,
/// at the last verse shown on its page, at the last verse of its juz, or at
/// the last verse of its surah.
pub open spec fn stop_boundary_spec(
    idx: PageIndex,
    texts: Seq<SurahText>,
    juz: Seq<MarkerEntry>,
    totals: Seq<(u32, u32)>,
    target: VersePos,
    stop: StopCondition,
) -> Option<VersePos> {
    match stop {
        StopCondition::Unlimited => None,
        StopCondition::Ayah => Some(target),
        StopCondition::Page => match verse_page_spec(idx, target.surah, target.verse) {
            Some(p) => match page_verses_spec(idx, texts, p) {
                Some(vs) => if vs.len() > 0 {
                    Some(vs.last().0)
                } else {
                    None
                },
                None => None,
            },
            None => None,
        },
        StopCondition::Juz => match marker_lookup(juz, target) {
            Some(cur) => Some(juz_walk(juz, totals, cur, target.surah as int, target.verse + 1, target)),
            None => None,
        },
        StopCondition::Surah => match surah_total_from(totals, target.surah, 0) {
            Some(t) => Some(VersePos { surah: target.surah, verse: t }),
            None => None,
        },
    }
}

/// The verse where continuous recitation from a verse stops.
pub fn compute_stop_boundary(
    index: &PageIndex,
    texts: &[SurahText],
    juz: &[MarkerEntry],
    totals: &[(u32, u32)],
    surah_num: u32,
    verse: u32,
    stop: StopCondition,
) -> (r: Option<(u32, u32)>)
    requires
        index.wf(),
        verse < u32::MAX,
    ensures
        match r {
            Some((s, v)) => stop_boundary_spec(*index, texts@, juz@, totals@, VersePos { surah: surah_num, verse: verse }, stop)
                == Some(VersePos { surah: s, verse: v }),
            None => stop_boundary_spec(*index, texts@, juz@, totals@, VersePos { surah: surah_num, verse: verse }, stop) is None,
        },
{
    let target = VersePos { surah: surah_num, verse };
    match stop {
        StopCondition::Unlimited => None,
        StopCondition::Ayah => Some((surah_num, verse)),
        StopCondition::Page => {
            let page = match get_verse_page(index, surah_num, verse) {
                Some(p) => p,
                None => return None,
            };
            match get_page_verses(index, texts, page) {
                Some(vs) => {
                    if vs.len() > 0 {
                        let last = vs.len() - 1;
                        proof {
                            assert(vs@.map_values(|x: PageVerse| page_verse_view(x))[last as int] == page_verse_view(vs@[last as int]));
                        }
                        Some((vs[last].surah_num, vs[last].verse))
                    } else {
                        None
                    }
                },
                None => None,
            }
        },
        StopCondition::Juz => {
            let cur = match lookup_marker(juz, target) {
                Some(j) => j,
                None => return None,
            };
            let mut last = target;
            let mut ns: u64 = surah_num as u64;
            let mut vn: u64 = verse as u64 + 1;
            while ns <= 114
                invariant_except_break
                    ns <= 114 ==> vn <= u32::MAX as int + 1,
                    vn >= 1 || ns == surah_num,
                    juz_walk(juz@, totals@, cur, surah_num as int, verse + 1, target) == juz_walk(
                        juz@,
                        totals@,
                        cur,
                        ns as int,
                        vn as int,
                        last,
                    ),
                ensures
                    juz_walk(juz@, totals@, cur, surah_num as int, verse + 1, target) == last,
                decreases (if ns <= 115 { 115 - ns } else { 0 }), (match surah_total_from(totals@, ns as u32, 0) {
                    Some(t) => t as int,
                    None => u32::MAX as int,
                }) + 1 - vn,
            {
                let total: u64 = match surah_total(totals, ns as u32) {
                    Some(t) => t as u64,
                    None => 4294967295,
                };
                if vn > total {
                    ns = ns + 1;
                    vn = 1;
                } else {
                    match lookup_marker(juz, VersePos { surah: ns as u32, verse: vn as u32 }) {
                        Some(j) => {
                            if j == cur {
                                last = VersePos { surah: ns as u32, verse: vn as u32 };
                                vn = vn + 1;
                            } else {
                                break;
                            }
                        },
                        None => {
                            break;
                        },
                    }
                }
            }
            Some((last.surah, last.verse))
        },
        StopCondition::Surah => match surah_total(totals, surah_num) {
            Some(t) => Some((surah_num, t)),
            None => None,
        },
    }
}

// ── Page layout ───────────────────────────────────────────────────────────
/// The opening formula shown above every surah but the first and the
/// ninth.
pub const BISMILLAH: &'static str = "بِسْمِ ٱللَّهِ ٱلرَّحْمَـٰنِ ٱلرَّحِيمِ";

/// What a page shows, in order.
#[derive(Debug, Clone, Copy, PartialEq, Eq, Structural)]
pub enum LayoutItem {
    /// The header of a surah that starts on the page.
    Header(u32),
    /// The bismillah of a surah that starts on the page.
    Bismillah(u32),
    /// A verse: surah and verse number.
    Verse(u32, u32),
}

/// Whether surah `s` is opened by the bismillah (all but the first and the
/// ninth).
pub open spec fn has_bismillah(s: u32) -> bool {
    s != 1 && s != 9
}

/// What shows before verse `v` of surah `s` after a verse of surah `last`:
/// a surah starting with this verse gets its header and, where it has one,
/// its bismillah.
pub open spec fn opening_of(s: u32, v: u32, last: Option<u32>) -> Seq<LayoutItem> {
    if v == 1 && last != Some(s) {
        seq![LayoutItem::Header(s)] + if has_bismillah(s) {
            seq![LayoutItem::Bismillah(s)]
        } else {
            Seq::empty()
        }
    } else {
        Seq::empty()
    }
}

/// The layout of the verses `vs` from position `i` on, after a verse of
/// surah `last`.
pub open spec fn layout_from(vs: Seq<(u32, u32)>, i: int, last: Option<u32>) -> Seq<LayoutItem>
    decreases vs.len() - i,
{
    if i >= vs.len() || i < 0 {
        Seq::empty()
    } else {
        opening_of(vs[i].0, vs[i].1, last) + seq![LayoutItem::Verse(vs[i].0, vs[i].1)] + layout_from(
            vs,
            i + 1,
            Some(vs[i].0),
        )
    }
}

/// The (surah, verse) of each shown verse.
pub open spec fn positions_of(vs: Seq<PageVerse>) -> Seq<(u32, u32)> {
    vs.map_values(|v: PageVerse| (v.surah_num, v.verse))
}

/// What a page shows for its verses: each verse, preceded by the header and
/// bismillah of a surah that starts with it.
pub fn page_layout(verses: &[PageVerse]) -> (r: Vec<LayoutItem>)
    ensures
        r@ == layout_from(positions_of(verses@), 0, None),
{
    let ghost ps = positions_of(verses@);
    let mut out: Vec<LayoutItem> = Vec::new();
    let mut last: Option<u32> = None;
    let mut i: usize = 0;
    while i < verses.len()
        invariant
            ps == positions_of(verses@),
            i <= verses@.len(),
            out@ + layout_from(ps, i as int, last) == layout_from(ps, 0, None),
        decreases verses@.len() - i,
    {
        let s = verses[i].surah_num;
        let v = verses[i].verse;
        let ghost before = out@;
        proof {
            assert(ps[i as int] == (s, v));
        }
        let starts = v == 1 && match last {
            Some(l) => l != s,
            None => true,
        };
        if starts {
            out.push(LayoutItem::Header(s));
            if s != 1 && s != 9 {
                out.push(LayoutItem::Bismillah(s));
            }
        }
        out.push(LayoutItem::Verse(s, v));
        proof {
            assert(out@ =~= before + opening_of(s, v, last) + seq![LayoutItem::Verse(s, v)]);
            assert(out@ + layout_from(ps, i + 1, Some(s)) =~= before + layout_from(ps, i as int, last));
        }
        last = Some(s);
        i = i + 1;
    }
    proof {
        assert(out@ + Seq::<LayoutItem>::empty() =~= out@);
    }
    out
}

/// The layout of the first `k` verses, after a verse of surah `last`.
pub open spec fn layout_prefix(vs: Seq<(u32, u32)>, k: int, last: Option<u32>) -> Seq<LayoutItem>
    decreases k,
{
    if k <= 0 {
        Seq::empty()
    } else {
        layout_prefix(vs, k - 1, last) + opening_of(vs[k - 1].0, vs[k - 1].1, if k - 1 == 0 {
            last
        } else {
            Some(vs[k - 2].0)
        }) + seq![LayoutItem::Verse(vs[k - 1].0, vs[k - 1].1)]
    }
}

proof fn lemma_layout_split(vs: Seq<(u32, u32)>, k: int)
    requires
        0 < k <= vs.len(),
    ensures
        layout_from(vs, 0, None) == layout_prefix(vs, k, None) + layout_from(vs, k, Some(vs[k - 1].0)),
    decreases k,
{
    if k == 1 {
        assert(layout_prefix(vs, 0, None) =~= Seq::<LayoutItem>::empty());
        assert(layout_from(vs, 0, None) =~= layout_prefix(vs, 1, None) + layout_from(vs, 1, Some(vs[0].0)));
    } else {
        lemma_layout_split(vs, k - 1);
        assert(layout_from(vs, k - 1, Some(vs[k - 2].0)) =~= opening_of(vs[k - 1].0, vs[k - 1].1, Some(vs[k - 2].0))
            + seq![LayoutItem::Verse(vs[k - 1].0, vs[k - 1].1)] + layout_from(vs, k, Some(vs[k - 1].0)));
        assert(layout_prefix(vs, k, None) =~= layout_prefix(vs, k - 1, None) + opening_of(
            vs[k - 1].0,
            vs[k - 1].1,
            Some(vs[k - 2].0),
        ) + seq![LayoutItem::Verse(vs[k - 1].0, vs[k - 1].1)]);
    }
}

/// `layout` is `pre`, then the header, bismillah (where it has one) and
/// first verse of surah `s`, then `rest`.
pub open spec fn opens_between(layout: Seq<LayoutItem>, pre: Seq<LayoutItem>, rest: Seq<LayoutItem>, s: u32) -> bool {
    layout == pre + seq![LayoutItem::Header(s)] + (if has_bismillah(s) {
        seq![LayoutItem::Bismillah(s)]
    } else {
        Seq::empty()
    }) + seq![LayoutItem::Verse(s, 1)] + rest
}

/// Every surah that starts on a page, at the top or after another surah,
/// shows its header and (but for the first and the ninth surah) its
/// bismillah right before its first verse.
pub proof fn lemma_surah_starts_get_header_and_bismillah(vs: Seq<(u32, u32)>, k: int)
    requires
        0 <= k < vs.len(),
        vs[k].1 == 1,
        k == 0 || vs[k - 1].0 != vs[k].0,
    ensures
        exists|pre: Seq<LayoutItem>, rest: Seq<LayoutItem>| #[trigger] opens_between(layout_from(vs, 0, None), pre, rest, vs[k].0),
{
    let s = vs[k].0;
    let bism: Seq<LayoutItem> = if has_bismillah(s) {
        seq![LayoutItem::Bismillah(s)]
    } else {
        Seq::empty()
    };
    if k == 0 {
        let rest = layout_from(vs, 1, Some(s));
        assert(layout_from(vs, 0, None) =~= Seq::<LayoutItem>::empty() + seq![LayoutItem::Header(s)] + bism + seq![
            LayoutItem::Verse(s, 1),
        ] + rest);
        assert(opens_between(layout_from(vs, 0, None), Seq::<LayoutItem>::empty(), rest, s));
    } else {
        lemma_layout_split(vs, k);
        let pre = layout_prefix(vs, k, None);
        let rest = layout_from(vs, k + 1, Some(s));
        assert(layout_from(vs, k, Some(vs[k - 1].0)) =~= seq![LayoutItem::Header(s)] + bism + seq![
            LayoutItem::Verse(s, 1),
        ] + rest);
        assert(layout_from(vs, 0, None) =~= pre + seq![LayoutItem::Header(s)] + bism + seq![LayoutItem::Verse(s, 1)]
            + rest);
        assert(opens_between(layout_from(vs, 0, None), pre, rest, s));
    }
}

// ── The marker lists ──────────────────────────────────────────────────────
/// Where marker `x` goes into `s`, kept in the order of the Quran with
/// later markers after earlier ones at the same verse: before the first
/// marker from `i` on at a later verse.
pub open spec fn marker_insert_pos(s: Seq<MarkerEntry>, x: MarkerEntry, i: int) -> int
    decreases s.len() - i,
{
    if i >= s.len() || i < 0 {
        s.len() as int
    } else if pos_lt(VersePos { surah: x.surah, verse: x.verse }, VersePos { surah: s[i].surah, verse: s[i].verse }) {
        i
    } else {
        marker_insert_pos(s, x, i + 1)
    }
}

/// `s` sorted by verse, keeping the order of markers at the same verse (a
/// stable sort).
pub open spec fn sort_markers_spec(s: Seq<MarkerEntry>) -> Seq<MarkerEntry>
    decreases s.len(),
{
    if s.len() == 0 {
        Seq::empty()
    } else {
        let r = sort_markers_spec(s.drop_last());
        r.insert(marker_insert_pos(r, s.last(), 0), s.last())
    }
}

/// A marker list as the page labels read it: sorted by verse.
pub fn sort_markers(list: Vec<MarkerEntry>) -> (r: Vec<MarkerEntry>)
    ensures
        r@ == sort_markers_spec(list@),
{
    let mut out: Vec<MarkerEntry> = Vec::new();
    let mut k: usize = 0;
    while k < list.len()
        invariant
            k <= list@.len(),
            out@ == sort_markers_spec(list@.take(k as int)),
        decreases list@.len() - k,
    {
        let x = list[k];
        proof {
            assert(list@.take(k + 1).drop_last() =~= list@.take(k as int));
            assert(list@.take(k + 1).last() == x);
        }
        let mut p: usize = 0;
        while p < out.len()
            invariant_except_break
                p <= out@.len(),
                marker_insert_pos(out@, x, 0) == marker_insert_pos(out@, x, p as int),
            ensures
                p <= out@.len(),
                marker_insert_pos(out@, x, 0) == p,
            decreases out@.len() - p,
        {
            if before(VersePos { surah: x.surah, verse: x.verse }, VersePos { surah: out[p].surah, verse: out[p].verse }) {
                break;
            }
            p = p + 1;
        }
        out.insert(p, x);
        k = k + 1;
    }
    proof {
        assert(list@.take(list@.len() as int) =~= list@);
    }
    out
}

} // verus!

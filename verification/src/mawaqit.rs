//! Finding the prayer-times payload that a Mawaqit mosque page embeds in
//! its HTML: the positions of `"times":[`, and the smallest balanced JSON
//! object around one of them that carries the times, the sunrise and the
//! calendar.
use std::collections::BTreeMap;
use vstd::prelude::*;
use vstd::utf8::{
    decode_utf8, encode_utf8, is_char_boundary, valid_utf8, encode_utf8_decode_utf8,
    encode_utf8_valid_utf8, is_char_boundary_iff_not_is_continuation_byte,
    is_char_boundary_start_end_of_seq, valid_utf8_split,
};

use crate::text;

verus! {

/// The marker that opens the daily times in the payload: `"times":[`.
pub open spec fn times_marker() -> Seq<u8> {
    seq![34u8, 116u8, 105u8, 109u8, 101u8, 115u8, 34u8, 58u8, 91u8]
}

/// The marker starts at byte `i` of `b`.
pub open spec fn marker_at(b: Seq<u8>, i: int) -> bool {
    0 <= i && i + 9 <= b.len() && b.subrange(i, i + 9) == times_marker()
}

fn marker_matches(b: &[u8], i: usize) -> (r: bool)
    requires
        i + 9 <= b@.len(),
    ensures
        r == marker_at(b@, i as int),
{
    let r = b[i] == 34 && b[i + 1] == 116 && b[i + 2] == 105 && b[i + 3] == 109 && b[i + 4] == 101
        && b[i + 5] == 115 && b[i + 6] == 34 && b[i + 7] == 58 && b[i + 8] == 91;
    proof {
        if r {
            assert(b@.subrange(i as int, i + 9) =~= times_marker());
        } else {
            if marker_at(b@, i as int) {
                let s = b@.subrange(i as int, i + 9);
                assert(s[0] == 34 && s[1] == 116 && s[2] == 105 && s[3] == 109 && s[4] == 101);
                assert(s[5] == 115 && s[6] == 34 && s[7] == 58 && s[8] == 91);
            }
        }
    }
    r
}

/// Byte offsets in `html` where `"times":[` starts, in increasing order:
/// every offset holds the marker and every occurrence is listed.
pub fn extract_object_candidates(html: &str) -> (idxs: Vec<usize>)
    ensures
        forall|k: int| 0 <= k < idxs@.len() ==> #[trigger] marker_at(encode_utf8(html@), idxs@[k] as int),
        forall|k: int, l: int| 0 <= k < l < idxs@.len() ==> #[trigger] idxs@[k] < #[trigger] idxs@[l],
        forall|i: int| #[trigger] marker_at(encode_utf8(html@), i) ==> exists|k: int|
            0 <= k < idxs@.len() && idxs@[k] == i,
{
    let b = html.as_bytes();
    let mut idxs: Vec<usize> = Vec::new();
    if b.len() < 9 {
        return idxs;
    }
    let last = b.len() - 9;
    let mut i: usize = 0;
    while i <= last
        invariant
            b@ == encode_utf8(html@),
            b@.len() <= usize::MAX,
            last + 9 == b@.len(),
            i <= last + 1,
            forall|k: int| 0 <= k < idxs@.len() ==> #[trigger] marker_at(b@, idxs@[k] as int),
            forall|k: int| 0 <= k < idxs@.len() ==> #[trigger] idxs@[k] < i,
            forall|k: int, l: int| 0 <= k < l < idxs@.len() ==> #[trigger] idxs@[k] < #[trigger] idxs@[l],
            forall|j: int| 0 <= j < i && #[trigger] marker_at(b@, j) ==> exists|k: int|
                0 <= k < idxs@.len() && idxs@[k] == j,
        decreases last + 1 - i,
    {
        let ghost before = idxs@;
        if marker_matches(b, i) {
            idxs.push(i);
        }
        proof {
            assert forall|j: int| 0 <= j < i + 1 && #[trigger] marker_at(b@, j) implies exists|k: int|
                0 <= k < idxs@.len() && idxs@[k] == j by {
                if j < i {
                    let k = choose|k: int| 0 <= k < before.len() && before[k] == j;
                    assert(idxs@[k] == j);
                } else {
                    assert(idxs@[idxs@.len() - 1] == i);
                }
            }
        }
        i = i + 1;
    }
    idxs
}

// ── The balanced object ───────────────────────────────────────────────────
/// Where the object opened at byte `i` closes, scanning from `i` with the
/// brace depth, whether inside a JSON string, and whether the previous
/// string byte was a backslash: the first `}` outside strings that brings
/// the depth to zero, or `None` at the end of the bytes.
pub open spec fn close_of(b: Seq<u8>, i: int, depth: int, in_str: bool, escape: bool) -> Option<int>
    decreases b.len() - i,
{
    if i < 0 || i >= b.len() {
        None
    } else if in_str {
        if escape {
            close_of(b, i + 1, depth, true, false)
        } else if b[i] == 92 {
            close_of(b, i + 1, depth, true, true)
        } else if b[i] == 34 {
            close_of(b, i + 1, depth, false, false)
        } else {
            close_of(b, i + 1, depth, true, false)
        }
    } else if b[i] == 34 {
        close_of(b, i + 1, depth, true, false)
    } else if b[i] == 123 {
        close_of(b, i + 1, depth + 1, false, false)
    } else if b[i] == 125 {
        if depth - 1 == 0 {
            Some(i)
        } else {
            close_of(b, i + 1, depth - 1, false, false)
        }
    } else {
        close_of(b, i + 1, depth, false, false)
    }
}

proof fn lemma_close_of_bounds(b: Seq<u8>, i: int, depth: int, in_str: bool, escape: bool)
    ensures
        close_of(b, i, depth, in_str, escape) matches Some(e) ==> i <= e < b.len() && b[e] == 125,
    decreases b.len() - i,
{
    if 0 <= i < b.len() {
        lemma_close_of_bounds(b, i + 1, depth, true, false);
        lemma_close_of_bounds(b, i + 1, depth, true, true);
        lemma_close_of_bounds(b, i + 1, depth, false, false);
        lemma_close_of_bounds(b, i + 1, depth + 1, false, false);
        lemma_close_of_bounds(b, i + 1, depth - 1, false, false);
    }
}

/// The byte where the object opened at `start` closes.
fn closing_brace(b: &[u8], start: usize) -> (r: Option<usize>)
    ensures
        match r {
            Some(e) => close_of(b@, start as int, 0, false, false) == Some(e as int),
            None => close_of(b@, start as int, 0, false, false) is None,
        },
{
    if start >= b.len() {
        return None;
    }
    let mut depth: i128 = 0;
    let mut in_str = false;
    let mut escape = false;
    let mut end: usize = start;
    while end < b.len()
        invariant
            start <= end <= b@.len(),
            -(end - start) <= depth <= end - start,
            b@.len() <= usize::MAX,
            !in_str ==> !escape,
            close_of(b@, start as int, 0, false, false) == close_of(b@, end as int, depth as int, in_str, escape),
        decreases b@.len() - end,
    {
        let c = b[end];
        if in_str {
            if escape {
                escape = false;
            } else if c == 92 {
                escape = true;
            } else if c == 34 {
                in_str = false;
            }
        } else if c == 34 {
            in_str = true;
        } else if c == 123 {
            depth = depth + 1;
        } else if c == 125 {
            depth = depth - 1;
            if depth == 0 {
                return Some(end);
            }
        }
        end = end + 1;
    }
    None
}

/// A JSON text that serde_json parses to a value with the member `key`.
pub uninterp spec fn json_member_present(text: Seq<char>, key: Seq<char>) -> bool;

/// Whether serde_json parses `text` (`serde_json::from_str::<Value>`) to a
/// value on which `Value::get(key)` finds something. Claims only the named
/// result for these two texts.
#[verifier::external_body]
fn json_has_member(text: &str, key: &str) -> (r: bool)
    ensures
        r == json_member_present(text@, key@),
{
    match serde_json::from_str::<serde_json::Value>(text) {
        Ok(v) => match v.get(key) {
            Some(_) => true,
            None => false,
        },
        Err(_) => false,
    }
}

/// The text is a JSON value with the members `times`, `shuruq` and
/// `calendar`.
pub open spec fn is_payload_text(text: Seq<char>) -> bool {
    &&& json_member_present(text, "times"@)
    &&& json_member_present(text, "shuruq"@)
    &&& json_member_present(text, "calendar"@)
}

fn is_payload(text: &str) -> (r: bool)
    ensures
        r == is_payload_text(text@),
{
    json_has_member(text, "times") && json_has_member(text, "shuruq") && json_has_member(
        text,
        "calendar",
    )
}

/// The object found from byte `s` down to byte `limit`: the first start,
/// going down, that holds `{`, closes, and spans a payload; its start and
/// closing byte.
pub open spec fn braced_payload(html: Seq<char>, s: int, limit: int) -> Option<(int, int)>
    decreases s + 1 - limit,
{
    if s < limit {
        None
    } else {
        let b = encode_utf8(html);
        if s < b.len() && b[s] == 123 && close_of(b, s, 0, false, false) is Some && is_payload_text(
            decode_utf8(b.subrange(s, close_of(b, s, 0, false, false)->0 + 1)),
        ) {
            Some((s, close_of(b, s, 0, false, false)->0))
        } else {
            braced_payload(html, s - 1, limit)
        }
    }
}

/// An ASCII byte of valid UTF-8 has character boundaries on both sides.
proof fn lemma_ascii_boundaries(b: Seq<u8>, i: int)
    requires
        valid_utf8(b),
        0 <= i < b.len(),
        b[i] < 128,
    ensures
        is_char_boundary(b, i),
        is_char_boundary(b, i + 1),
{
    is_char_boundary_iff_not_is_continuation_byte(b, i);
    assert(is_char_boundary(b, i));
    valid_utf8_split(b, i);
    let rest = b.subrange(i, b.len() as int);
    assert(valid_utf8(rest));
    assert(rest[0] == b[i]);
    assert(vstd::utf8::length_of_first_scalar(rest) == 1);
    assert(vstd::utf8::pop_first_scalar(rest) =~= b.subrange(i + 1, b.len() as int));
    if i + 1 < b.len() {
        let after = b.subrange(i + 1, b.len() as int);
        assert(valid_utf8(after));
        assert(vstd::utf8::valid_first_scalar(after));
        assert(after[0] == b[i + 1]);
        assert(!vstd::utf8::is_continuation_byte(b[i + 1]));
        is_char_boundary_iff_not_is_continuation_byte(b, i + 1);
    } else {
        is_char_boundary_start_end_of_seq(b);
    }
}

/// The text of bytes `start..=end` of `html`, both of them ASCII.
fn ascii_span(html: &str, start: usize, end: usize) -> (piece: &str)
    requires
        start <= end < encode_utf8(html@).len(),
        end < usize::MAX,
        encode_utf8(html@)[start as int] < 128,
        encode_utf8(html@)[end as int] < 128,
    ensures
        piece@ == decode_utf8(encode_utf8(html@).subrange(start as int, end + 1)),
{
    let ghost b = encode_utf8(html@);
    proof {
        encode_utf8_valid_utf8(html@);
        lemma_ascii_boundaries(b, start as int);
    }
    let (_, tail) = html.split_at(start);
    let ghost t = encode_utf8(tail@);
    proof {
        assert(t =~= b.subrange(start as int, b.len() as int));
        encode_utf8_valid_utf8(tail@);
        assert(t[end - start] == b[end as int]);
        lemma_ascii_boundaries(t, end - start);
    }
    let (piece, _) = tail.split_at(end + 1 - start);
    proof {
        assert(encode_utf8(piece@) =~= b.subrange(start as int, end + 1));
        encode_utf8_decode_utf8(piece@);
    }
    piece
}

/// The embedded payload near byte `near`: going down from `near` to 8000
/// bytes before it, the first `{` whose balanced object (strings and
/// escapes skipped) parses as JSON with `times`, `shuruq` and `calendar`.
pub fn extract_braced_json_from(html: &str, near: usize) -> (r: Option<String>)
    ensures
        match braced_payload(html@, near as int, if near >= 8000 { near - 8000 } else { 0 }) {
            Some((s, e)) => r matches Some(t) && t@ == decode_utf8(
                encode_utf8(html@).subrange(s, e + 1),
            ),
            None => r is None,
        },
{
    let b = html.as_bytes();
    let limit: usize = if near >= 8000 {
        near - 8000
    } else {
        0
    };
    let total: usize = b.len();
    let mut s: usize = near;
    loop
        invariant
            b@ == encode_utf8(html@),
            total == b@.len(),
            limit <= s <= near,
            limit == (if near >= 8000 { near - 8000 } else { 0int }),
            braced_payload(html@, near as int, limit as int) == braced_payload(html@, s as int, limit as int),
        decreases s,
    {
        if s < total && b[s] == 123 {
            match closing_brace(b, s) {
                Some(e) => {
                    proof {
                        lemma_close_of_bounds(b@, s as int, 0, false, false);
                    }
                    let piece = ascii_span(html, s, e);
                    if is_payload(piece) {
                        return Some(crate::text::to_owned_string(piece));
                    }
                },
                None => {},
            }
        }
        if s == limit {
            proof {
                assert(braced_payload(html@, s as int - 1, limit as int) is None);
            }
            return None;
        }
        s = s - 1;
    }
}

/// The first embedded payload found near one of the `"times":[` markers,
/// trying them in order.
pub fn find_embedded_payload(html: &str) -> (r: Option<String>)
    ensures
        r matches Some(t) ==> exists|i: int|
            #[trigger] marker_at(encode_utf8(html@), i) && (braced_payload(
                html@,
                i,
                if i >= 8000 { i - 8000 } else { 0 },
            ) matches Some((s, e)) && t@ == decode_utf8(encode_utf8(html@).subrange(s, e + 1))
                && forall|j: int| #[trigger] marker_at(encode_utf8(html@), j) && j < i ==> braced_payload(
                html@,
                j,
                if j >= 8000 { j - 8000 } else { 0 },
            ) is None),
        r is None ==> forall|i: int| #[trigger] marker_at(encode_utf8(html@), i) ==> braced_payload(
            html@,
            i,
            if i >= 8000 { i - 8000 } else { 0 },
        ) is None,
{
    let idxs = extract_object_candidates(html);
    let mut k: usize = 0;
    while k < idxs.len()
        invariant
            forall|m: int| 0 <= m < idxs@.len() ==> #[trigger] marker_at(encode_utf8(html@), idxs@[m] as int),
            forall|a: int, b: int| 0 <= a < b < idxs@.len() ==> #[trigger] idxs@[a] < #[trigger] idxs@[b],
            forall|i: int| #[trigger] marker_at(encode_utf8(html@), i) ==> exists|m: int|
                0 <= m < idxs@.len() && idxs@[m] == i,
            k <= idxs@.len(),
            forall|m: int| 0 <= m < k ==> braced_payload(
                html@,
                #[trigger] idxs@[m] as int,
                if idxs@[m] >= 8000 { idxs@[m] - 8000 } else { 0 },
            ) is None,
        decreases idxs@.len() - k,
    {
        let idx = idxs[k];
        match extract_braced_json_from(html, idx) {
            Some(t) => {
                proof {
                    assert(marker_at(encode_utf8(html@), idx as int));
                    assert forall|j: int| #[trigger] marker_at(encode_utf8(html@), j) && j < idx implies braced_payload(
                        html@,
                        j,
                        if j >= 8000 { j - 8000 } else { 0 },
                    ) is None by {
                        let m = choose|m: int| 0 <= m < idxs@.len() && idxs@[m] == j;
                        if m >= k {
                            if m > k {
                                assert(idxs@[k as int] < idxs@[m]);
                            }
                        }
                        assert(m < k);
                        assert(braced_payload(html@, idxs@[m] as int, if idxs@[m] >= 8000 { idxs@[m] - 8000 } else { 0 }) is None);
                    }
                }
                return Some(t);
            },
            None => {},
        }
        k = k + 1;
    }
    proof {
        assert forall|i: int| #[trigger] marker_at(encode_utf8(html@), i) implies braced_payload(
            html@,
            i,
            if i >= 8000 { i - 8000 } else { 0 },
        ) is None by {
            let m = choose|m: int| 0 <= m < idxs@.len() && idxs@[m] == i;
            assert(braced_payload(html@, idxs@[m] as int, if idxs@[m] >= 8000 { idxs@[m] - 8000 } else { 0 }) is None);
        }
    }
    None
}

// ── The schedule in the payload ───────────────────────────────────────────
/// What the parsed payload holds, as plain values: each field where it has
/// the expected JSON type (`times` an array of which each string is kept,
/// `calendar` an array of month objects of which each is kept as its
/// (key, array of optional strings) members, in order).
pub struct MawaqitPayload {
    pub times: Option<Vec<Option<String>>>,
    pub shuruq: Option<String>,
    pub timezone: Option<String>,
    pub name: Option<String>,
    pub label: Option<String>,
    pub country_code: Option<String>,
    pub calendar: Option<Vec<Option<Vec<(String, Option<Vec<Option<String>>>)>>>>,
}

/// The schedule read from a payload: the mosque's name (its `name`, else
/// its `label`), time zone and country code, and twelve months of days,
/// each day with its six times (fajr, sunrise, dhuhr, asr, maghrib, isha),
/// keyed by the day; a later entry for a day replaces an earlier one.
pub struct MawaqitSchedule {
    pub mosque_name: Option<String>,
    pub timezone: Option<String>,
    pub country_code: Option<String>,
    pub months: Vec<BTreeMap<u32, Vec<String>>>,
}

/// Why a payload holds no usable schedule.
#[derive(Debug, Clone, Copy, PartialEq, Eq, Structural)]
pub enum ScheduleError {
    /// `times` is missing or is not five entries, or `shuruq` is missing.
    FetchFailed,
}

pub open spec fn opt_strings(v: Seq<Option<String>>) -> Seq<Option<Seq<char>>> {
    v.map_values(|o: Option<String>| match o {
        Some(s) => Some(s@),
        None => None,
    })
}

/// The six times of a calendar day: an array of six strings.
pub open spec fn day_row(vals: Option<Vec<Option<String>>>) -> Option<Seq<Seq<char>>> {
    match vals {
        Some(v) => if v@.len() == 6 && forall|k: int| 0 <= k < 6 ==> (#[trigger] v@[k]) is Some {
            Some(v@.map_values(|o: Option<String>| o->0@))
        } else {
            None
        },
        None => None,
    }
}

/// The days of a month object: each entry whose key is a `u32` and whose
/// value is a valid row, read in order, a later entry for a day replacing
/// an earlier one.
pub open spec fn month_days(obj: Seq<(String, Option<Vec<Option<String>>>)>) -> Map<u32, Seq<Seq<char>>>
    decreases obj.len(),
{
    if obj.len() == 0 {
        Map::empty()
    } else {
        let r = month_days(obj.drop_last());
        match (crate::location::parse_u32_spec(obj.last().0@), day_row(obj.last().1)) {
            (Some(d), Some(row)) => r.insert(d as u32, row),
            _ => r,
        }
    }
}

/// The months of the calendar (a month that is not an object has no
/// days); twelve empty months where the calendar does not have twelve.
pub open spec fn calendar_months(cal: Option<Vec<Option<Vec<(String, Option<Vec<Option<String>>>)>>>>) -> Seq<
    Map<u32, Seq<Seq<char>>>,
> {
    let read: Seq<Map<u32, Seq<Seq<char>>>> = match cal {
        Some(c) => c@.map_values(
            |m: Option<Vec<(String, Option<Vec<Option<String>>>)>>| match m {
                Some(obj) => month_days(obj@),
                None => Map::empty(),
            },
        ),
        None => Seq::empty(),
    };
    if read.len() == 12 {
        read
    } else {
        Seq::new(12, |i: int| Map::<u32, Seq<Seq<char>>>::empty())
    }
}

/// The string of an optional entry, empty where it is not one.
pub open spec fn text_or_empty(o: Option<Seq<char>>) -> Seq<char> {
    match o {
        Some(t) => t,
        None => Seq::empty(),
    }
}

/// The months of a payload with today (month `month0` from 0, day `day`)
/// added from the daily times where the calendar lacks it.
pub open spec fn schedule_months(p: MawaqitPayload, month0: int, day: u32) -> Seq<Map<u32, Seq<Seq<char>>>> {
    let months = calendar_months(p.calendar);
    let t = opt_strings(p.times->0@);
    if 0 <= month0 < 12 && !months[month0].contains_key(day) {
        months.update(
            month0,
            months[month0].insert(
                day,
                seq![text_or_empty(t[0]), p.shuruq->0@, text_or_empty(t[1]), text_or_empty(t[2]),
                    text_or_empty(t[3]), text_or_empty(t[4])],
            ),
        )
    } else {
        months
    }
}

/// The payload holds a schedule: five daily times and the sunrise.
pub open spec fn payload_usable(p: MawaqitPayload) -> bool {
    p.times matches Some(t) && t@.len() == 5 && p.shuruq is Some
}

/// The six times of a day as texts.
pub open spec fn row_view(r: Vec<String>) -> Seq<Seq<char>> {
    r@.map_values(|s: String| s@)
}

/// A month's days with their times as texts.
pub open spec fn month_view(m: BTreeMap<u32, Vec<String>>) -> Map<u32, Seq<Seq<char>>> {
    m@.map_values(|r: Vec<String>| row_view(r))
}

fn opt_copy(o: &Option<String>) -> (r: Option<String>)
    ensures
        r == *o,
{
    match o {
        Some(s) => Some(s.clone()),
        None => None,
    }
}

fn read_day_row(vals: &Option<Vec<Option<String>>>) -> (r: Option<Vec<String>>)
    ensures
        match r {
            Some(v) => day_row(*vals) == Some(v@.map_values(|s: String| s@)),
            None => day_row(*vals) is None,
        },
{
    match vals {
        Some(v) => {
            if v.len() != 6 {
                return None;
            }
            let mut out: Vec<String> = Vec::new();
            let mut k: usize = 0;
            while k < 6
                invariant
                    *vals == Some(*v),
                    v@.len() == 6,
                    k <= 6,
                    forall|m: int| 0 <= m < k ==> (#[trigger] v@[m]) is Some,
                    out@.map_values(|s: String| s@) == v@.take(k as int).map_values(|o: Option<String>| o->0@),
                decreases 6 - k,
            {
                match &v[k] {
                    Some(s) => {
                        let ghost before = out@;
                        out.push(s.clone());
                        proof {
                            assert(out@.map_values(|s: String| s@) =~= before.map_values(|s: String| s@).push(s@));
                            assert(v@.take(k + 1).map_values(|o: Option<String>| o->0@) =~= v@.take(k as int).map_values(
                                |o: Option<String>| o->0@,
                            ).push(s@));
                        }
                    },
                    None => {
                        proof {
                            assert(!(v@[k as int] is Some));
                        }
                        return None;
                    },
                }
                k = k + 1;
            }
            proof {
                assert(v@.take(6) =~= v@);
            }
            Some(out)
        },
        None => None,
    }
}

fn read_month(obj: &Vec<(String, Option<Vec<Option<String>>>)>) -> (r: BTreeMap<u32, Vec<String>>)
    ensures
        month_view(r) == month_days(obj@),
{
    let mut out: BTreeMap<u32, Vec<String>> = BTreeMap::new();
    let mut k: usize = 0;
    proof {
        assert(month_view(out) =~= month_days(obj@.take(0)));
    }
    while k < obj.len()
        invariant
            k <= obj@.len(),
            month_view(out) == month_days(obj@.take(k as int)),
        decreases obj@.len() - k,
    {
        proof {
            assert(obj@.take(k + 1).drop_last() =~= obj@.take(k as int));
            assert(obj@.take(k + 1).last() == obj@[k as int]);
        }
        let key = text::chars_of(obj[k].0.as_str());
        match crate::location::parse_u32(key.as_slice()) {
            Some(d) => match read_day_row(&obj[k].1) {
                Some(row) => {
                    let ghost before = out@;
                    let ghost rv = row_view(row);
                    out.insert(d, row);
                    proof {
                        assert(month_view(out) =~= before.map_values(|r: Vec<String>| row_view(r)).insert(d, rv));
                    }
                },
                None => {},
            },
            None => {},
        }
        k = k + 1;
    }
    proof {
        assert(obj@.take(obj@.len() as int) =~= obj@);
    }
    out
}

fn read_calendar(cal: &Option<Vec<Option<Vec<(String, Option<Vec<Option<String>>>)>>>>) -> (r: Vec<
    BTreeMap<u32, Vec<String>>,
>)
    ensures
        r@.len() == calendar_months(*cal).len(),
        forall|m: int| 0 <= m < r@.len() ==> month_view(#[trigger] r@[m]) == calendar_months(*cal)[m],
{
    let mut out: Vec<BTreeMap<u32, Vec<String>>> = Vec::new();
    match cal {
        Some(c) => {
            let ghost read = c@.map_values(
                |m: Option<Vec<(String, Option<Vec<Option<String>>>)>>| match m {
                    Some(obj) => month_days(obj@),
                    None => Map::<u32, Seq<Seq<char>>>::empty(),
                },
            );
            let mut k: usize = 0;
            while k < c.len()
                invariant
                    k <= c@.len(),
                    read.len() == c@.len(),
                    forall|m: int| 0 <= m < c@.len() ==> #[trigger] read[m] == match c@[m] {
                        Some(obj) => month_days(obj@),
                        None => Map::<u32, Seq<Seq<char>>>::empty(),
                    },
                    out@.len() == k,
                    forall|m: int| 0 <= m < k ==> month_view(#[trigger] out@[m]) == read[m],
                decreases c@.len() - k,
            {
                let month = match &c[k] {
                    Some(obj) => read_month(obj),
                    None => {
                        let e: BTreeMap<u32, Vec<String>> = BTreeMap::new();
                        proof {
                            assert(month_view(e) =~= Map::<u32, Seq<Seq<char>>>::empty());
                        }
                        e
                    },
                };
                proof {
                    assert(read[k as int] == match c@[k as int] {
                        Some(obj) => month_days(obj@),
                        None => Map::<u32, Seq<Seq<char>>>::empty(),
                    });
                }
                out.push(month);
                k = k + 1;
            }
        },
        None => {},
    }
    if out.len() != 12 {
        let mut twelve: Vec<BTreeMap<u32, Vec<String>>> = Vec::new();
        let mut k: usize = 0;
        while k < 12
            invariant
                k <= 12,
                twelve@.len() == k,
                forall|m: int| 0 <= m < k ==> month_view(#[trigger] twelve@[m]) == Map::<u32, Seq<Seq<char>>>::empty(),
            decreases 12 - k,
        {
            let e: BTreeMap<u32, Vec<String>> = BTreeMap::new();
            proof {
                assert(month_view(e) =~= Map::<u32, Seq<Seq<char>>>::empty());
            }
            twelve.push(e);
            k = k + 1;
        }
        return twelve;
    }
    out
}

fn entry_text(o: &Option<String>) -> (r: String)
    ensures
        r@ == text_or_empty(match o {
            Some(s) => Some(s@),
            None => None,
        }),
{
    match o {
        Some(s) => s.clone(),
        None => String::new(),
    }
}

/// The schedule a parsed payload holds, with today (month `month0` from 0,
/// day `day`) filled in from the daily times where its calendar lacks it.
pub fn schedule_from_payload(p: &MawaqitPayload, month0: usize, day: u32) -> (r: Result<MawaqitSchedule, ScheduleError>)
    ensures
        payload_usable(*p) <==> r is Ok,
        match r {
            Ok(s) => {
                &&& s.mosque_name == (if p.name is Some { p.name } else { p.label })
                &&& s.timezone == p.timezone
                &&& s.country_code == p.country_code
                &&& s.months@.len() == schedule_months(*p, month0 as int, day).len()
                &&& forall|m: int| 0 <= m < s.months@.len() ==> month_view(#[trigger] s.months@[m]) == schedule_months(
                    *p,
                    month0 as int,
                    day,
                )[m]
            },
            Err(e) => e == ScheduleError::FetchFailed,
        },
{
    let times = match &p.times {
        Some(t) => t,
        None => return Err(ScheduleError::FetchFailed),
    };
    if times.len() != 5 {
        return Err(ScheduleError::FetchFailed);
    }
    let shuruq = match &p.shuruq {
        Some(s) => s,
        None => return Err(ScheduleError::FetchFailed),
    };
    let mosque_name = match &p.name {
        Some(n) => Some(n.clone()),
        None => opt_copy(&p.label),
    };
    let mut months = read_calendar(&p.calendar);
    let ghost cm = calendar_months(p.calendar);
    if month0 < months.len() && !months[month0].contains_key(&day) {
        let row: Vec<String> = vec![
            entry_text(&times[0]),
            shuruq.clone(),
            entry_text(&times[1]),
            entry_text(&times[2]),
            entry_text(&times[3]),
            entry_text(&times[4]),
        ];
        let ghost t = opt_strings(times@);
        proof {
            assert(t[0] == match times@[0] { Some(s) => Some(s@), None => None });
            assert(t[1] == match times@[1] { Some(s) => Some(s@), None => None });
            assert(t[2] == match times@[2] { Some(s) => Some(s@), None => None });
            assert(t[3] == match times@[3] { Some(s) => Some(s@), None => None });
            assert(t[4] == match times@[4] { Some(s) => Some(s@), None => None });
            assert(row@.map_values(|s: String| s@) =~= seq![text_or_empty(t[0]), shuruq@, text_or_empty(t[1]),
                text_or_empty(t[2]), text_or_empty(t[3]), text_or_empty(t[4])]);
        }
        let ghost old_months = months@;
        let mut month = months.remove(month0);
        let ghost old_month = month@;
        let ghost rv = row_view(row);
        month.insert(day, row);
        proof {
            assert(month_view(month) =~= old_month.map_values(|r: Vec<String>| row_view(r)).insert(day, rv));
        }
        months.insert(month0, month);
        proof {
            assert forall|m: int| 0 <= m < months@.len() implies month_view(#[trigger] months@[m]) == schedule_months(
                *p,
                month0 as int,
                day,
            )[m] by {
                if m != month0 {
                    assert(months@[m] == old_months[m]);
                }
            }
        }
    } else {
        proof {
            if 0 <= month0 < 12 {
                assert(month0 < months@.len());
            }
        }
    }
    Ok(
        MawaqitSchedule {
            mosque_name,
            timezone: opt_copy(&p.timezone),
            country_code: opt_copy(&p.country_code),
            months,
        },
    )
}

// ── The mosque's address ─────────────────────────────────────────────────
/// The host `reqwest::Url::parse` finds in `text` (`host_str`), or `None`
/// where it does not parse; a parsed URL may have no host.
pub uninterp spec fn url_host_name(text: Seq<char>) -> Option<Option<Seq<char>>>;

/// The text of the URL `reqwest::Url::parse` reads from `text` after
/// `set_fragment(None)` and `set_query(None)`, or `None` where it does not
/// parse.
pub uninterp spec fn url_clean_text(text: Seq<char>) -> Option<Seq<char>>;

/// Parses a URL with `reqwest::Url::parse` and gives its host. Claims only
/// the named result.
#[verifier::external_body]
fn url_host(text: &str) -> (r: Option<Option<String>>)
    ensures
        match r {
            Some(Some(h)) => url_host_name(text@) == Some(Some(h@)),
            Some(None) => url_host_name(text@) == Some(None::<Seq<char>>),
            None => url_host_name(text@) is None,
        },
{
    match reqwest::Url::parse(text) {
        Ok(url) => Some(url.host_str().map(|h| h.to_string())),
        Err(_) => None,
    }
}

/// Parses a URL with `reqwest::Url::parse`, drops its fragment and query,
/// and gives its text. Claims only the named result.
#[verifier::external_body]
fn url_without_query(text: &str) -> (r: Option<String>)
    ensures
        match r {
            Some(t) => url_clean_text(text@) == Some(t@),
            None => url_clean_text(text@) is None,
        },
{
    match reqwest::Url::parse(text) {
        Ok(mut url) => {
            url.set_fragment(None);
            url.set_query(None);
            Some(url.to_string())
        },
        Err(_) => None,
    }
}

/// `t` starts with `p`.
pub open spec fn starts_with(t: Seq<char>, p: Seq<char>) -> bool {
    t.len() >= p.len() && t.take(p.len() as int) == p
}

/// `t` ends with `p`.
pub open spec fn ends_with(t: Seq<char>, p: Seq<char>) -> bool {
    t.len() >= p.len() && t.skip(t.len() - p.len()) == p
}

/// The address with a scheme: as typed where it starts with `http://` or
/// `https://`, else with `https://` in front.
pub open spec fn with_scheme(t: Seq<char>) -> Seq<char> {
    if starts_with(t, "http://"@) || starts_with(t, "https://"@) {
        t
    } else {
        "https://"@ + t
    }
}

/// The mosque page an address names: trimmed, with a scheme, on
/// mawaqit.net or one of its subdomains, without query or fragment;
/// `None` for anything else.
pub open spec fn mawaqit_url_spec(raw: Seq<char>) -> Option<Seq<char>> {
    let t = text::trimmed(raw);
    if t.len() == 0 {
        None
    } else {
        let w = with_scheme(t);
        match url_host_name(w) {
            None => None,
            Some(h) => {
                let host = match h {
                    Some(x) => x,
                    None => Seq::<char>::empty(),
                };
                if host != "mawaqit.net"@ && !ends_with(host, ".mawaqit.net"@) {
                    None
                } else {
                    url_clean_text(w)
                }
            },
        }
    }
}

fn has_prefix(t: &[char], p: &[char]) -> (r: bool)
    ensures
        r == starts_with(t@, p@),
{
    if t.len() < p.len() {
        return false;
    }
    let ok = text::chars_match_at(t, p, 0);
    proof {
        assert(t@.subrange(0, p@.len() as int) =~= t@.take(p@.len() as int));
    }
    ok
}

fn has_suffix(t: &[char], p: &[char]) -> (r: bool)
    ensures
        r == ends_with(t@, p@),
{
    if t.len() < p.len() {
        return false;
    }
    let ok = text::chars_match_at(t, p, t.len() - p.len());
    proof {
        assert(t@.subrange(t@.len() - p@.len(), t@.len() as int) =~= t@.skip(t@.len() - p@.len()));
    }
    ok
}

/// The page of a mosque on mawaqit.net from the address the user typed, or
/// why it is refused.
pub fn normalize_mawaqit_url(raw: &str) -> (r: Result<String, String>)
    ensures
        match r {
            Ok(u) => mawaqit_url_spec(raw@) == Some(u@),
            Err(m) => mawaqit_url_spec(raw@) is None && m@ == "Invalid Mawaqit URL"@,
        },
{
    let t = text::trim_str(raw);
    if t.as_str().is_empty() {
        return Err(text::to_owned_string("Invalid Mawaqit URL"));
    }
    let tc = text::chars_of(t.as_str());
    let http = text::chars_of("http://");
    let https = text::chars_of("https://");
    let with: String = if has_prefix(tc.as_slice(), http.as_slice()) || has_prefix(tc.as_slice(), https.as_slice()) {
        t
    } else {
        let mut w = text::to_owned_string("https://");
        w.append(t.as_str());
        w
    };
    let host = match url_host(with.as_str()) {
        Some(h) => match h {
            Some(x) => x,
            None => String::new(),
        },
        None => return Err(text::to_owned_string("Invalid Mawaqit URL")),
    };
    let hc = text::chars_of(host.as_str());
    let root = text::chars_of("mawaqit.net");
    let sub = text::chars_of(".mawaqit.net");
    if !text::chars_equal(hc.as_slice(), root.as_slice()) && !has_suffix(hc.as_slice(), sub.as_slice()) {
        return Err(text::to_owned_string("Invalid Mawaqit URL"));
    }
    match url_without_query(with.as_str()) {
        Some(u) => Ok(u),
        None => Err(text::to_owned_string("Invalid Mawaqit URL")),
    }
}

} // verus!

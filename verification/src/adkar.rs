//! Adkar (remembrances) by session, the daily picks shown as reminders,
//! and the rewriting of favorites stored as Arabic text into entry ids.
use rand::prelude::IndexedRandom;
use vstd::prelude::*;
use crate::text;

verus! {

/// The session a dhikr belongs to.
#[derive(Debug, Clone, Copy, PartialEq, Eq, Structural, Hash)]
pub enum DikrCategory {
    Morning,
    Evening,
    Night,
}

/// One dhikr with its repetition count, Arabic text, translation and source.
pub struct Dikr {
    pub id: String,
    pub category: DikrCategory,
    pub count: u32,
    pub count_display: Option<String>,
    pub arabic: String,
    pub translation: String,
    pub reference: String,
}

/// A field-by-field copy of a dhikr.
pub fn copy_dikr(d: &Dikr) -> (c: Dikr)
    ensures
        c == *d,
{
    Dikr {
        id: d.id.clone(),
        category: d.category,
        count: d.count,
        count_display: match &d.count_display {
            Some(s) => Some(s.clone()),
            None => None,
        },
        arabic: d.arabic.clone(),
        translation: d.translation.clone(),
        reference: d.reference.clone(),
    }
}

/// The dhikr of `all` in session `c`, in order.
pub open spec fn in_session(all: Seq<Dikr>, c: DikrCategory) -> Seq<Dikr>
    decreases all.len(),
{
    if all.len() == 0 {
        Seq::empty()
    } else {
        let r = in_session(all.drop_last(), c);
        if all.last().category == c {
            r.push(all.last())
        } else {
            r
        }
    }
}

/// An adkar collection split by session.
pub struct AdkarSet {
    morning: Vec<Dikr>,
    evening: Vec<Dikr>,
    night: Vec<Dikr>,
}

impl AdkarSet {
    /// The dhikr of session `c`.
    pub closed spec fn session(&self, c: DikrCategory) -> Seq<Dikr> {
        match c {
            DikrCategory::Morning => self.morning@,
            DikrCategory::Evening => self.evening@,
            DikrCategory::Night => self.night@,
        }
    }

    /// Splits a collection by session, keeping the order within each.
    pub fn from_list(all: Vec<Dikr>) -> (s: AdkarSet)
        ensures
            s.session(DikrCategory::Morning) == in_session(all@, DikrCategory::Morning),
            s.session(DikrCategory::Evening) == in_session(all@, DikrCategory::Evening),
            s.session(DikrCategory::Night) == in_session(all@, DikrCategory::Night),
    {
        let mut morning: Vec<Dikr> = Vec::new();
        let mut evening: Vec<Dikr> = Vec::new();
        let mut night: Vec<Dikr> = Vec::new();
        let ghost start = all@;
        let mut rest = all;
        let n = rest.len();
        let mut i: usize = 0;
        while i < n
            invariant
                n == start.len(),
                i <= n,
                rest@ == start.subrange(i as int, n as int),
                morning@ == in_session(start.take(i as int), DikrCategory::Morning),
                evening@ == in_session(start.take(i as int), DikrCategory::Evening),
                night@ == in_session(start.take(i as int), DikrCategory::Night),
            decreases n - i,
        {
            let d = rest.remove(0);
            proof {
                assert(start.take(i + 1).drop_last() =~= start.take(i as int));
                assert(start.take(i + 1).last() == d);
            }
            match d.category {
                DikrCategory::Morning => morning.push(d),
                DikrCategory::Evening => evening.push(d),
                DikrCategory::Night => night.push(d),
            }
            i = i + 1;
        }
        proof {
            assert(start.take(n as int) =~= start);
        }
        AdkarSet { morning, evening, night }
    }

    /// The dhikr of session `category`.
    pub fn category(&self, category: DikrCategory) -> (r: &[Dikr])
        ensures
            r@ == self.session(category),
    {
        match category {
            DikrCategory::Morning => self.morning.as_slice(),
            DikrCategory::Evening => self.evening.as_slice(),
            DikrCategory::Night => self.night.as_slice(),
        }
    }

    /// Every dhikr: the morning session, then the evening, then the night.
    pub fn iter_all(&self) -> (r: Vec<Dikr>)
        ensures
            r@ == self.session(DikrCategory::Morning) + self.session(DikrCategory::Evening)
                + self.session(DikrCategory::Night),
    {
        let mut r: Vec<Dikr> = Vec::new();
        append_copies(&mut r, self.morning.as_slice());
        append_copies(&mut r, self.evening.as_slice());
        append_copies(&mut r, self.night.as_slice());
        r
    }

    /// A session's daily reminder dhikr, favorites first: where none of the
    /// session is a favorite, a random sample of the session; where at least
    /// `amount` are, a random sample of the favorites; otherwise every
    /// favorite, in session order, then a random sample of the others.
    pub fn daily_picks(&self, category: DikrCategory, amount: usize, favorites: &[String]) -> (r: Vec<Dikr>)
        ensures
            daily_picks_outcome(self.session(category), favorite_ids(favorites@), amount as int, r@),
    {
        let pool = self.category(category);
        let ghost favs = favorite_ids(favorites@);
        let mut favorited: Vec<Dikr> = Vec::new();
        let mut others: Vec<Dikr> = Vec::new();
        let mut i: usize = 0;
        while i < pool.len()
            invariant
                pool@ == self.session(category),
                favs == favorite_ids(favorites@),
                i <= pool@.len(),
                favorited@ == favorites_in(pool@.take(i as int), favs),
                others@ == others_in(pool@.take(i as int), favs),
            decreases pool@.len() - i,
        {
            let d = copy_dikr(&pool[i]);
            proof {
                assert(pool@.take(i + 1).drop_last() =~= pool@.take(i as int));
                assert(pool@.take(i + 1).last() == pool@[i as int]);
            }
            if contains_id(favorites, &d.id) {
                favorited.push(d);
            } else {
                others.push(d);
            }
            i = i + 1;
        }
        proof {
            assert(pool@.take(pool@.len() as int) =~= pool@);
        }
        if favorited.len() == 0 {
            return sample_of(pool, amount);
        }
        if favorited.len() >= amount {
            return sample_of(favorited.as_slice(), amount);
        }
        let extra = sample_of(others.as_slice(), amount - favorited.len());
        let ghost fav_seq = favorited@;
        let mut picks = favorited;
        append_copies(&mut picks, extra.as_slice());
        proof {
            assert(picks@.take(fav_seq.len() as int) =~= fav_seq);
            assert(picks@.skip(fav_seq.len() as int) =~= extra@);
        }
        picks
    }
}

/// Appends copies of `s` to `out`.
fn append_copies(out: &mut Vec<Dikr>, s: &[Dikr])
    ensures
        final(out)@ == old(out)@ + s@,
{
    let mut i: usize = 0;
    while i < s.len()
        invariant
            i <= s@.len(),
            out@ == old(out)@ + s@.take(i as int),
        decreases s@.len() - i,
    {
        out.push(copy_dikr(&s[i]));
        proof {
            assert(s@.take(i + 1) =~= s@.take(i as int).push(s@[i as int]));
        }
        i = i + 1;
    }
    proof {
        assert(s@.take(s@.len() as int) =~= s@);
    }
}

/// The favorite ids as texts.
pub open spec fn favorite_ids(favorites: Seq<String>) -> Seq<Seq<char>> {
    favorites.map_values(|s: String| s@)
}

/// Whether `id` is one of `favorites`.
fn contains_id(favorites: &[String], id: &String) -> (r: bool)
    ensures
        r == favorite_ids(favorites@).contains(id@),
{
    let mut i: usize = 0;
    while i < favorites.len()
        invariant
            i <= favorites@.len(),
            forall|k: int| 0 <= k < i ==> favorites@[k]@ != id@,
        decreases favorites@.len() - i,
    {
        if text::str_equal(favorites[i].as_str(), id.as_str()) {
            proof {
                assert(favorite_ids(favorites@)[i as int] == id@);
            }
            return true;
        }
        i = i + 1;
    }
    proof {
        if favorite_ids(favorites@).contains(id@) {
            let k = choose|k: int| 0 <= k < favorite_ids(favorites@).len() && favorite_ids(favorites@)[k] == id@;
            assert(favorites@[k]@ == id@);
        }
    }
    false
}

/// The favorited dhikr of `pool`, in order.
pub open spec fn favorites_in(pool: Seq<Dikr>, favs: Seq<Seq<char>>) -> Seq<Dikr>
    decreases pool.len(),
{
    if pool.len() == 0 {
        Seq::empty()
    } else {
        let r = favorites_in(pool.drop_last(), favs);
        if favs.contains(pool.last().id@) {
            r.push(pool.last())
        } else {
            r
        }
    }
}

/// The dhikr of `pool` that are not favorites, in order.
pub open spec fn others_in(pool: Seq<Dikr>, favs: Seq<Seq<char>>) -> Seq<Dikr>
    decreases pool.len(),
{
    if pool.len() == 0 {
        Seq::empty()
    } else {
        let r = others_in(pool.drop_last(), favs);
        if favs.contains(pool.last().id@) {
            r
        } else {
            r.push(pool.last())
        }
    }
}

/// `r` holds `min(amount, s.len())` entries of `s` taken from distinct
/// positions, in any order.
pub open spec fn is_sample_of(r: Seq<Dikr>, s: Seq<Dikr>, amount: int) -> bool {
    &&& r.len() == (if amount < s.len() {
        amount
    } else {
        s.len() as int
    })
    &&& exists|idx: Seq<int>|
        #![trigger idx.len()]
        idx.len() == r.len() && (forall|k: int| 0 <= k < r.len() ==> 0 <= #[trigger] idx[k] < s.len() && r[k]
            == s[idx[k]]) && (forall|k: int, l: int| 0 <= k < l < r.len() ==> #[trigger] idx[k] != #[trigger] idx[l])
}

/// What the daily picks of `pool` can be for these favorites.
pub open spec fn daily_picks_outcome(pool: Seq<Dikr>, favs: Seq<Seq<char>>, amount: int, r: Seq<Dikr>) -> bool {
    let fav = favorites_in(pool, favs);
    if fav.len() == 0 {
        is_sample_of(r, pool, amount)
    } else if fav.len() >= amount {
        is_sample_of(r, fav, amount)
    } else {
        &&& r.len() >= fav.len()
        &&& r.take(fav.len() as int) == fav
        &&& is_sample_of(r.skip(fav.len() as int), others_in(pool, favs), amount - fav.len())
    }
}

/// Chooses `amount` positions below `len` (all of them when there are
/// fewer) with rand's `IndexedRandom::choose_multiple` on the slice of positions,
/// seeded by `rand::rng()`. Claims what holds of every outcome, as rand
/// documents it: `min(amount, len)` positions, each below `len`, none twice.
#[verifier::external_body]
fn sample_positions(len: usize, amount: usize) -> (r: Vec<usize>)
    ensures
        r@.len() == (if amount < len {
            amount
        } else {
            len
        }),
        forall|k: int| 0 <= k < r@.len() ==> #[trigger] r@[k] < len,
        forall|k: int, l: int| 0 <= k < l < r@.len() ==> #[trigger] r@[k] != #[trigger] r@[l],
{
    let positions: Vec<usize> = (0..len).collect();
    positions.as_slice().choose_multiple(&mut rand::rng(), amount).copied().collect()
}

/// A random sample of `amount` entries of `s`.
fn sample_of(s: &[Dikr], amount: usize) -> (r: Vec<Dikr>)
    ensures
        is_sample_of(r@, s@, amount as int),
{
    let positions = sample_positions(s.len(), amount);
    let mut r: Vec<Dikr> = Vec::new();
    let mut k: usize = 0;
    while k < positions.len()
        invariant
            k <= positions@.len(),
            r@.len() == k,
            forall|m: int| 0 <= m < positions@.len() ==> #[trigger] positions@[m] < s@.len(),
            forall|m: int| 0 <= m < k ==> #[trigger] r@[m] == s@[positions@[m] as int],
        decreases positions@.len() - k,
    {
        r.push(copy_dikr(&s[positions[k]]));
        k = k + 1;
    }
    proof {
        let idx = positions@.map_values(|p: usize| p as int);
        assert(idx.len() == r@.len());
        assert(forall|a: int| 0 <= a < r@.len() ==> 0 <= #[trigger] idx[a] < s@.len() && r@[a] == s@[idx[a]]);
        assert(forall|a: int, b: int| 0 <= a < b < r@.len() ==> #[trigger] idx[a] != #[trigger] idx[b]);
    }
    r
}

// ── Favorites stored as Arabic text ───────────────────────────────────────
/// The ids of the dhikr of `source` whose trimmed Arabic text is `a`, in
/// order.
pub open spec fn ids_for(source: Seq<Dikr>, a: Seq<char>) -> Seq<Seq<char>>
    decreases source.len(),
{
    if source.len() == 0 {
        Seq::empty()
    } else {
        let r = ids_for(source.drop_last(), a);
        if text::trimmed(source.last().arabic@) == a {
            r.push(source.last().id@)
        } else {
            r
        }
    }
}

/// A favorite rewritten: the ids of the dhikr with that Arabic text, or the
/// favorite itself where there are none.
pub open spec fn expand_one(source: Seq<Dikr>, fav: Seq<char>) -> Seq<Seq<char>> {
    if ids_for(source, fav).len() > 0 {
        ids_for(source, fav)
    } else {
        seq![fav]
    }
}

/// The favorites rewritten one by one, in order.
pub open spec fn expanded(source: Seq<Dikr>, favs: Seq<Seq<char>>) -> Seq<Seq<char>>
    decreases favs.len(),
{
    if favs.len() == 0 {
        Seq::empty()
    } else {
        expanded(source, favs.drop_last()) + expand_one(source, favs.last())
    }
}

/// Some favorite is the Arabic text of a dhikr.
pub open spec fn any_expands(source: Seq<Dikr>, favs: Seq<Seq<char>>) -> bool {
    exists|k: int| 0 <= k < favs.len() && #[trigger] ids_for(source, favs[k]).len() > 0
}

/// The ids of the dhikr of `source` whose trimmed Arabic text is `a`.
fn ids_with_arabic(source: &[Dikr], a: &[char]) -> (r: Vec<String>)
    ensures
        favorite_ids(r@) == ids_for(source@, a@),
{
    let mut r: Vec<String> = Vec::new();
    let mut i: usize = 0;
    while i < source.len()
        invariant
            i <= source@.len(),
            favorite_ids(r@) == ids_for(source@.take(i as int), a@),
        decreases source@.len() - i,
    {
        let cs = text::chars_of(source[i].arabic.as_str());
        let t = text::trim_chars(cs.as_slice());
        proof {
            assert(source@.take(i + 1).drop_last() =~= source@.take(i as int));
            assert(source@.take(i + 1).last() == source@[i as int]);
        }
        if text::chars_equal(t.as_slice(), a) {
            let ghost before = r@;
            r.push(source[i].id.clone());
            proof {
                assert(favorite_ids(r@) =~= favorite_ids(before).push(source@[i as int].id@));
            }
        }
        i = i + 1;
    }
    proof {
        assert(source@.take(source@.len() as int) =~= source@);
    }
    r
}

/// Rewrites favorites stored as Arabic text into the ids of every dhikr that
/// carries that text (a dhikr shared by sessions gives several ids); ids
/// pass through. Says whether anything was rewritten.
pub fn expand_favorites(favorites: &[String], source: &[Dikr]) -> (r: (Vec<String>, bool))
    ensures
        favorite_ids(r.0@) == expanded(source@, favorite_ids(favorites@)),
        r.1 == any_expands(source@, favorite_ids(favorites@)),
{
    let ghost favs = favorite_ids(favorites@);
    let mut changed = false;
    let mut out: Vec<String> = Vec::new();
    let mut i: usize = 0;
    while i < favorites.len()
        invariant
            favs == favorite_ids(favorites@),
            i <= favorites@.len(),
            favorite_ids(out@) == expanded(source@, favs.take(i as int)),
            changed == any_expands(source@, favs.take(i as int)),
        decreases favorites@.len() - i,
    {
        let cs = text::chars_of(favorites[i].as_str());
        let ids = ids_with_arabic(source, cs.as_slice());
        let ghost before = out@;
        proof {
            assert(favs.take(i + 1).drop_last() =~= favs.take(i as int));
            assert(favs.take(i + 1).last() == favs[i as int]);
        }
        if ids.len() > 0 {
            changed = true;
            let mut k: usize = 0;
            while k < ids.len()
                invariant
                    k <= ids@.len(),
                    favorite_ids(out@) == favorite_ids(before) + favorite_ids(ids@).take(k as int),
                decreases ids@.len() - k,
            {
                let ghost mid = out@;
                out.push(ids[k].clone());
                proof {
                    assert(favorite_ids(out@) =~= favorite_ids(mid).push(ids@[k as int]@));
                    assert(favorite_ids(ids@).take(k + 1) =~= favorite_ids(ids@).take(k as int).push(ids@[k as int]@));
                }
                k = k + 1;
            }
            proof {
                assert(favorite_ids(ids@).take(ids@.len() as int) =~= favorite_ids(ids@));
                assert(any_expands(source@, favs.take(i + 1))) by {
                    assert(favs.take(i + 1)[i as int] == favs[i as int]);
                }
            }
        } else {
            out.push(favorites[i].clone());
            proof {
                assert(favorite_ids(out@) =~= favorite_ids(before).push(favs[i as int]));
                assert(seq![favs[i as int]] =~= expand_one(source@, favs[i as int]));
                if any_expands(source@, favs.take(i + 1)) {
                    let k = choose|k: int| 0 <= k < i + 1 && #[trigger] ids_for(source@, favs.take(i + 1)[k]).len() > 0;
                    assert(favs.take(i + 1)[k] == favs.take(i as int)[k]);
                }
            }
        }
        i = i + 1;
    }
    proof {
        assert(favs.take(favorites@.len() as int) =~= favs);
    }
    (out, changed)
}

/// The one-time rewrite of favorites stored as Arabic text into entry ids,
/// against the Arabic collection: nothing to do without favorites; the
/// favorites are replaced only where some were rewritten.
pub fn migrate_favorites(favorites: &mut Vec<String>, source: &AdkarSet)
    ensures
        ({
            let all = source.session(DikrCategory::Morning) + source.session(DikrCategory::Evening)
                + source.session(DikrCategory::Night);
            let favs = favorite_ids(old(favorites)@);
            if any_expands(all, favs) {
                favorite_ids(final(favorites)@) == expanded(all, favs)
            } else {
                final(favorites)@ == old(favorites)@
            }
        }),
{
    if favorites.len() == 0 {
        proof {
            let all = source.session(DikrCategory::Morning) + source.session(DikrCategory::Evening)
                + source.session(DikrCategory::Night);
            assert(!any_expands(all, favorite_ids(favorites@)));
        }
        return;
    }
    let all = source.iter_all();
    let (new_favs, changed) = expand_favorites(favorites.as_slice(), all.as_slice());
    if changed {
        *favorites = new_favs;
    }
}


// ── Laws of the daily picks and of the favorites rewrite ──────────────────
proof fn lemma_split_lengths(pool: Seq<Dikr>, favs: Seq<Seq<char>>)
    ensures
        favorites_in(pool, favs).len() + others_in(pool, favs).len() == pool.len(),
        forall|k: int| 0 <= k < favorites_in(pool, favs).len() ==> pool.contains(#[trigger] favorites_in(pool, favs)[k])
            && favs.contains(favorites_in(pool, favs)[k].id@),
        forall|k: int| 0 <= k < others_in(pool, favs).len() ==> pool.contains(#[trigger] others_in(pool, favs)[k])
            && !favs.contains(others_in(pool, favs)[k].id@),
    decreases pool.len(),
{
    if pool.len() > 0 {
        let init = pool.drop_last();
        lemma_split_lengths(init, favs);
        assert forall|k: int| 0 <= k < favorites_in(pool, favs).len() implies pool.contains(
            #[trigger] favorites_in(pool, favs)[k],
        ) && favs.contains(favorites_in(pool, favs)[k].id@) by {
            if k < favorites_in(init, favs).len() {
                let x = favorites_in(init, favs)[k];
                let j = choose|j: int| 0 <= j < init.len() && init[j] == x;
                assert(pool[j] == x);
            } else {
                assert(pool[pool.len() - 1] == pool.last());
            }
        }
        assert forall|k: int| 0 <= k < others_in(pool, favs).len() implies pool.contains(
            #[trigger] others_in(pool, favs)[k],
        ) && !favs.contains(others_in(pool, favs)[k].id@) by {
            if k < others_in(init, favs).len() {
                let x = others_in(init, favs)[k];
                let j = choose|j: int| 0 <= j < init.len() && init[j] == x;
                assert(pool[j] == x);
            } else {
                assert(pool[pool.len() - 1] == pool.last());
            }
        }
    }
}

/// No two entries of `s` share an id.
pub open spec fn ids_unique(s: Seq<Dikr>) -> bool {
    forall|i: int, j: int| 0 <= i < j < s.len() ==> #[trigger] s[i].id@ != #[trigger] s[j].id@
}

proof fn lemma_split_unique(pool: Seq<Dikr>, favs: Seq<Seq<char>>)
    requires
        ids_unique(pool),
    ensures
        ids_unique(favorites_in(pool, favs)),
        ids_unique(others_in(pool, favs)),
    decreases pool.len(),
{
    if pool.len() > 0 {
        let init = pool.drop_last();
        assert(ids_unique(init)) by {
            assert forall|i: int, j: int| 0 <= i < j < init.len() implies #[trigger] init[i].id@ != #[trigger] init[j].id@ by {
                assert(init[i] == pool[i] && init[j] == pool[j]);
            }
        }
        lemma_split_unique(init, favs);
        lemma_split_lengths(init, favs);
        let x = pool.last();
        assert forall|j: int| 0 <= j < init.len() implies #[trigger] init[j].id@ != x.id@ by {
            assert(init[j] == pool[j] && x == pool[pool.len() - 1]);
        }
        let f = favorites_in(init, favs);
        let o = others_in(init, favs);
        assert forall|i: int, j: int| 0 <= i < j < favorites_in(pool, favs).len() implies #[trigger] favorites_in(pool, favs)[i].id@
            != #[trigger] favorites_in(pool, favs)[j].id@ by {
            if j == f.len() {
                let m = choose|m: int| 0 <= m < init.len() && init[m] == f[i];
                assert(init[m].id@ != x.id@);
            }
        }
        assert forall|i: int, j: int| 0 <= i < j < others_in(pool, favs).len() implies #[trigger] others_in(pool, favs)[i].id@
            != #[trigger] others_in(pool, favs)[j].id@ by {
            if j == o.len() {
                let m = choose|m: int| 0 <= m < init.len() && init[m] == o[i];
                assert(init[m].id@ != x.id@);
            }
        }
    }
}

proof fn lemma_sample_unique(r: Seq<Dikr>, s: Seq<Dikr>, amount: int)
    requires
        is_sample_of(r, s, amount),
        ids_unique(s),
    ensures
        ids_unique(r),
        forall|k: int| 0 <= k < r.len() ==> s.contains(#[trigger] r[k]),
{
    let idx = choose|idx: Seq<int>|
        #![trigger idx.len()]
        idx.len() == r.len() && (forall|k: int| 0 <= k < r.len() ==> 0 <= #[trigger] idx[k] < s.len() && r[k]
            == s[idx[k]]) && (forall|k: int, l: int| 0 <= k < l < r.len() ==> #[trigger] idx[k] != #[trigger] idx[l]);
    assert forall|i: int, j: int| 0 <= i < j < r.len() implies #[trigger] r[i].id@ != #[trigger] r[j].id@ by {
        let a = idx[i];
        let b = idx[j];
        assert(a != b);
        if a < b {
            assert(s[a].id@ != s[b].id@);
        } else {
            assert(s[b].id@ != s[a].id@);
        }
    }
    assert forall|k: int| 0 <= k < r.len() implies s.contains(#[trigger] r[k]) by {
        assert(s[idx[k]] == r[k]);
    }
}

/// The daily picks number `amount`, or the whole session where it is
/// smaller.
pub proof fn lemma_daily_picks_count(pool: Seq<Dikr>, favs: Seq<Seq<char>>, amount: int, r: Seq<Dikr>)
    requires
        amount >= 0,
        daily_picks_outcome(pool, favs, amount, r),
    ensures
        r.len() == (if amount < pool.len() {
            amount
        } else {
            pool.len() as int
        }),
{
    lemma_split_lengths(pool, favs);
    let fav = favorites_in(pool, favs);
    if 0 < fav.len() < amount {
        assert(r.len() == fav.len() + r.skip(fav.len() as int).len());
    }
}

/// Where ids are unique within the session, no dhikr is picked twice.
pub proof fn lemma_daily_picks_distinct(pool: Seq<Dikr>, favs: Seq<Seq<char>>, amount: int, r: Seq<Dikr>)
    requires
        ids_unique(pool),
        daily_picks_outcome(pool, favs, amount, r),
    ensures
        ids_unique(r),
{
    lemma_split_lengths(pool, favs);
    lemma_split_unique(pool, favs);
    let fav = favorites_in(pool, favs);
    let others = others_in(pool, favs);
    if fav.len() == 0 {
        lemma_sample_unique(r, pool, amount);
    } else if fav.len() >= amount {
        lemma_sample_unique(r, fav, amount);
    } else {
        let n = fav.len() as int;
        let tail = r.skip(n);
        lemma_sample_unique(tail, others, amount - n);
        assert forall|i: int, j: int| 0 <= i < j < r.len() implies #[trigger] r[i].id@ != #[trigger] r[j].id@ by {
            if j < n {
                assert(r[i] == fav[i] && r[j] == fav[j]);
            } else if i >= n {
                assert(r[i] == tail[i - n] && r[j] == tail[j - n]);
            } else {
                assert(r[i] == fav[i]);
                assert(r[j] == tail[j - n]);
                assert(others.contains(tail[j - n]));
                let m = choose|m: int| 0 <= m < others.len() && others[m] == tail[j - n];
                assert(!favs.contains(others[m].id@));
                assert(favs.contains(fav[i].id@));
            }
        }
    }
}

/// While the favorites of a session are fewer than the picks, every one of
/// them is picked; where they are at least as many, only favorites are.
pub proof fn lemma_daily_picks_favor_favorites(pool: Seq<Dikr>, favs: Seq<Seq<char>>, amount: int, r: Seq<Dikr>)
    requires
        daily_picks_outcome(pool, favs, amount, r),
    ensures
        favorites_in(pool, favs).len() < amount ==> forall|i: int|
            0 <= i < pool.len() && favs.contains(#[trigger] pool[i].id@) ==> r.contains(pool[i]),
        favorites_in(pool, favs).len() >= amount ==> forall|k: int| 0 <= k < r.len() ==> favs.contains(#[trigger] r[k].id@),
{
    lemma_split_lengths(pool, favs);
    let fav = favorites_in(pool, favs);
    if fav.len() < amount {
        assert forall|i: int| 0 <= i < pool.len() && favs.contains(#[trigger] pool[i].id@) implies r.contains(pool[i]) by {
            lemma_favorite_listed(pool, favs, i);
            let k = choose|k: int| 0 <= k < fav.len() && fav[k] == pool[i];
            assert(r.take(fav.len() as int)[k] == r[k]);
        }
    } else {
        if fav.len() > 0 {
            let idx = choose|idx: Seq<int>|
                #![trigger idx.len()]
                idx.len() == r.len() && (forall|k: int| 0 <= k < r.len() ==> 0 <= #[trigger] idx[k] < fav.len() && r[k]
                    == fav[idx[k]]) && (forall|k: int, l: int| 0 <= k < l < r.len() ==> #[trigger] idx[k] != #[trigger] idx[l]);
            assert forall|k: int| 0 <= k < r.len() implies favs.contains(#[trigger] r[k].id@) by {
                assert(r[k] == fav[idx[k]]);
            }
        } else {
            assert(r.len() == 0);
        }
    }
}

proof fn lemma_favorite_listed(pool: Seq<Dikr>, favs: Seq<Seq<char>>, i: int)
    requires
        0 <= i < pool.len(),
        favs.contains(pool[i].id@),
    ensures
        favorites_in(pool, favs).contains(pool[i]),
    decreases pool.len(),
{
    let init = pool.drop_last();
    if i < pool.len() - 1 {
        lemma_favorite_listed(init, favs, i);
        assert(init[i] == pool[i]);
        let k = choose|k: int| 0 <= k < favorites_in(init, favs).len() && favorites_in(init, favs)[k] == init[i];
        assert(favorites_in(pool, favs)[k] == pool[i]);
    } else {
        let f = favorites_in(pool, favs);
        assert(f[f.len() - 1] == pool[i]);
    }
}

/// No id of `source` is the trimmed Arabic text of a dhikr.
pub open spec fn ids_are_not_texts(source: Seq<Dikr>) -> bool {
    forall|i: int, j: int| 0 <= i < source.len() && 0 <= j < source.len() ==> #[trigger] source[i].id@
        != text::trimmed(#[trigger] source[j].arabic@)
}

proof fn lemma_ids_for_are_ids(source: Seq<Dikr>, a: Seq<char>)
    ensures
        forall|k: int| 0 <= k < ids_for(source, a).len() ==> exists|i: int|
            0 <= i < source.len() && #[trigger] ids_for(source, a)[k] == source[i].id@,
        ids_for(source, a).len() > 0 ==> exists|j: int| 0 <= j < source.len() && text::trimmed(source[j].arabic@) == a,
    decreases source.len(),
{
    if source.len() > 0 {
        let init = source.drop_last();
        lemma_ids_for_are_ids(init, a);
        assert forall|k: int| 0 <= k < ids_for(source, a).len() implies exists|i: int|
            0 <= i < source.len() && #[trigger] ids_for(source, a)[k] == source[i].id@ by {
            if k < ids_for(init, a).len() {
                let i = choose|i: int| 0 <= i < init.len() && ids_for(init, a)[k] == init[i].id@;
                assert(source[i] == init[i]);
            } else {
                assert(ids_for(source, a)[k] == source[source.len() - 1].id@);
            }
        }
        if ids_for(source, a).len() > 0 {
            if ids_for(init, a).len() > 0 {
                let j = choose|j: int| 0 <= j < init.len() && text::trimmed(init[j].arabic@) == a;
                assert(source[j] == init[j]);
            } else {
                assert(text::trimmed(source[source.len() - 1].arabic@) == a);
            }
        }
    }
}

proof fn lemma_expanded_parts(source: Seq<Dikr>, favs: Seq<Seq<char>>)
    requires
        ids_are_not_texts(source),
    ensures
        forall|k: int| 0 <= k < expanded(source, favs).len() ==> ids_for(source, #[trigger] expanded(source, favs)[k]).len() == 0,
    decreases favs.len(),
{
    if favs.len() > 0 {
        let init = favs.drop_last();
        lemma_expanded_parts(source, init);
        let x = favs.last();
        let head = expanded(source, init);
        let piece = expand_one(source, x);
        lemma_ids_for_are_ids(source, x);
        assert forall|k: int| 0 <= k < expanded(source, favs).len() implies ids_for(source, #[trigger] expanded(source, favs)[k]).len() == 0 by {
            let e = expanded(source, favs)[k];
            if k < head.len() {
                assert(e == head[k]);
            } else {
                assert(e == piece[k - head.len()]);
                if ids_for(source, x).len() > 0 {
                    let i = choose|i: int| 0 <= i < source.len() && ids_for(source, x)[k - head.len()] == source[i].id@;
                    lemma_ids_for_are_ids(source, e);
                    if ids_for(source, e).len() > 0 {
                        let j = choose|j: int| 0 <= j < source.len() && text::trimmed(source[j].arabic@) == e;
                        assert(source[i].id@ != text::trimmed(source[j].arabic@));
                    }
                }
            }
        }
    }
}

proof fn lemma_expanded_identity(source: Seq<Dikr>, favs: Seq<Seq<char>>)
    requires
        forall|k: int| 0 <= k < favs.len() ==> ids_for(source, #[trigger] favs[k]).len() == 0,
    ensures
        expanded(source, favs) == favs,
    decreases favs.len(),
{
    if favs.len() > 0 {
        let init = favs.drop_last();
        assert forall|k: int| 0 <= k < init.len() implies ids_for(source, #[trigger] init[k]).len() == 0 by {
            assert(init[k] == favs[k]);
        }
        lemma_expanded_identity(source, init);
        assert(ids_for(source, favs[favs.len() - 1]).len() == 0);
        assert(expanded(source, favs) =~= favs);
    }
}

/// Rewriting favorites a second time changes nothing, where no id of the
/// collection is the Arabic text of one of its dhikr.
pub proof fn lemma_expand_favorites_idempotent(source: Seq<Dikr>, favs: Seq<Seq<char>>)
    requires
        ids_are_not_texts(source),
    ensures
        !any_expands(source, expanded(source, favs)),
        expanded(source, expanded(source, favs)) == expanded(source, favs),
{
    lemma_expanded_parts(source, favs);
    lemma_expanded_identity(source, expanded(source, favs));
}

} // verus!

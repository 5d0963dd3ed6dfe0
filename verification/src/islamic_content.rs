//! Reminder texts shown around prayer times, picked from a fixed pool per
//! occasion so that the same day, occasion and prayer give the same text.
use vstd::prelude::*;
use vstd::arithmetic::div_mod::{lemma_add_mod_noop, lemma_mod_bound};
use crate::i18n;

verus! {

/// The occasion a reminder is shown for.
#[derive(Debug, Clone, Copy, PartialEq, Eq, Structural)]
pub enum ContentCategory {
    PrePrayer,
    PrayerTime,
    Iqamah,
    PreviousCheck,
}

/// The position of an occasion in declaration order.
pub open spec fn category_number(c: ContentCategory) -> int {
    match c {
        ContentCategory::PrePrayer => 0,
        ContentCategory::PrayerTime => 1,
        ContentCategory::Iqamah => 2,
        ContentCategory::PreviousCheck => 3,
    }
}

fn category_index(c: ContentCategory) -> (r: u64)
    ensures
        r == category_number(c),
{
    match c {
        ContentCategory::PrePrayer => 0,
        ContentCategory::PrayerTime => 1,
        ContentCategory::Iqamah => 2,
        ContentCategory::PreviousCheck => 3,
    }
}

/// The message keys of a reminder: its text and, where it cites one, its
/// source.
#[derive(Debug, Clone, Copy)]
pub struct IslamicReminderKeys {
    pub text_key: &'static str,
    pub source_key: Option<&'static str>,
}

/// An optional key as text.
pub open spec fn opt_text(k: Option<&'static str>) -> Option<Seq<char>> {
    match k {
        Some(s) => Some(s@),
        None => None,
    }
}

impl IslamicReminderKeys {
    /// The reminder in the interface language: each key through `tr`.
    pub fn resolve(&self) -> (r: (String, Option<String>))
        requires
            !self.text_key@.contains('\0'),
            self.source_key matches Some(s) ==> !s@.contains('\0'),
        ensures
            i18n::is_tr_of(r.0@, self.text_key@),
            match (self.source_key, r.1) {
                (Some(k), Some(t)) => i18n::is_tr_of(t@, k@),
                (None, None) => true,
                _ => false,
            },
    {
        let text = i18n::translate(self.text_key);
        let source = match self.source_key {
            Some(k) => Some(i18n::translate(k)),
            None => None,
        };
        (text, source)
    }
}

/// The reminders of each occasion, as (text, source) keys.
pub open spec fn pool_spec(c: ContentCategory) -> Seq<(Seq<char>, Option<Seq<char>>)> {
    match c {
        ContentCategory::PrePrayer => seq![
            ("The best of deeds is prayer at its specified time."@, Some("Sahih al-Bukhari #527, Sahih Muslim #85"@)),
            ("Whoever performs Wudu thoroughly, his sins come out from his body."@, Some("Sahih Muslim #245"@)),
            ("Give glad tidings to those who walk to mosques in darkness of perfect light on Judgment Day."@, Some("Sunan Abi Dawud #561, Sunan al-Tirmidhi #223"@)),
            ("Verily, prayer restrains from shameful and unjust deeds."@, Some("Surah Al-Ankabut 29:45"@)),
        ],
        ContentCategory::PrayerTime => seq![
            ("Prayer in congregation is twenty-seven times superior to prayer performed individually."@, Some("Sahih al-Bukhari #645, Sahih Muslim #650"@)),
            ("Whoever performs the two cool prayers (Fajr and Asr) will enter Paradise."@, Some("Sahih al-Bukhari #574, Sahih Muslim #635"@)),
            ("The first thing for which a person will be brought to account on Judgment Day is prayer."@, Some("Sunan al-Tirmidhi #413, Sunan an-Nasa'i #3991"@)),
        ],
        ContentCategory::Iqamah => seq![
            ("When the Iqamah is called, do not come running, but come walking with calmness and dignity."@, Some("Sahih al-Bukhari #636, Sahih Muslim #602"@)),
            ("Do not miss the virtue of praying in congregation."@, Some("Sahih al-Bukhari #645"@)),
            ("Straighten your rows, for straightening the rows is part of establishing prayer."@, Some("Sahih al-Bukhari #723, Sahih Muslim #433"@)),
        ],
        ContentCategory::PreviousCheck => seq![
            ("Whoever forgets a prayer or sleeps through it, its expiation is to pray it when he remembers."@, Some("Sahih al-Bukhari #597, Sahih Muslim #684"@)),
            ("Guard strictly your prayers, especially the middle prayer."@, Some("Surah Al-Baqarah 2:238"@)),
        ],
    }
}

/// The reminder pools: four before a prayer, three at its time, three at
/// the iqamah and two for the previous-prayer check; every reminder has a
/// non-empty text and a non-empty source, and no text is in two pools.
pub proof fn lemma_pools_shape()
    ensures
        pool_spec(ContentCategory::PrePrayer).len() == 4,
        pool_spec(ContentCategory::PrayerTime).len() == 3,
        pool_spec(ContentCategory::Iqamah).len() == 3,
        pool_spec(ContentCategory::PreviousCheck).len() == 2,
        forall|c: ContentCategory, i: int|
            0 <= i < pool_spec(c).len() ==> {
                let e = #[trigger] pool_spec(c)[i];
                &&& e.0.len() > 0
                &&& e.1 matches Some(src) && src.len() > 0
            },
        forall|c1: ContentCategory, c2: ContentCategory, i: int, j: int|
            c1 != c2 && 0 <= i < pool_spec(c1).len() && 0 <= j < pool_spec(c2).len()
                ==> #[trigger] pool_spec(c1)[i].0 != #[trigger] pool_spec(c2)[j].0,
{
    reveal_strlit("The best of deeds is prayer at its specified time.");
    reveal_strlit("Sahih al-Bukhari #527, Sahih Muslim #85");
    reveal_strlit("Whoever performs Wudu thoroughly, his sins come out from his body.");
    reveal_strlit("Sahih Muslim #245");
    reveal_strlit("Give glad tidings to those who walk to mosques in darkness of perfect light on Judgment Day.");
    reveal_strlit("Sunan Abi Dawud #561, Sunan al-Tirmidhi #223");
    reveal_strlit("Verily, prayer restrains from shameful and unjust deeds.");
    reveal_strlit("Surah Al-Ankabut 29:45");
    reveal_strlit("Prayer in congregation is twenty-seven times superior to prayer performed individually.");
    reveal_strlit("Sahih al-Bukhari #645, Sahih Muslim #650");
    reveal_strlit("Whoever performs the two cool prayers (Fajr and Asr) will enter Paradise.");
    reveal_strlit("Sahih al-Bukhari #574, Sahih Muslim #635");
    reveal_strlit("The first thing for which a person will be brought to account on Judgment Day is prayer.");
    reveal_strlit("Sunan al-Tirmidhi #413, Sunan an-Nasa'i #3991");
    reveal_strlit("When the Iqamah is called, do not come running, but come walking with calmness and dignity.");
    reveal_strlit("Sahih al-Bukhari #636, Sahih Muslim #602");
    reveal_strlit("Do not miss the virtue of praying in congregation.");
    reveal_strlit("Sahih al-Bukhari #645");
    reveal_strlit("Straighten your rows, for straightening the rows is part of establishing prayer.");
    reveal_strlit("Sahih al-Bukhari #723, Sahih Muslim #433");
    reveal_strlit("Whoever forgets a prayer or sleeps through it, its expiation is to pray it when he remembers.");
    reveal_strlit("Sahih al-Bukhari #597, Sahih Muslim #684");
    reveal_strlit("Guard strictly your prayers, especially the middle prayer.");
    reveal_strlit("Surah Al-Baqarah 2:238");
    assert forall|c1: ContentCategory, c2: ContentCategory, i: int, j: int|
        c1 != c2 && 0 <= i < pool_spec(c1).len() && 0 <= j < pool_spec(c2).len()
        implies #[trigger] pool_spec(c1)[i].0 != #[trigger] pool_spec(c2)[j].0 by {
        let a = pool_spec(c1)[i].0;
        let b = pool_spec(c2)[j].0;
        assert(a.len() != b.len() || a[0] != b[0]);
    }
}

/// A pool of keys as texts.
pub open spec fn pool_view(p: Seq<(&'static str, Option<&'static str>)>) -> Seq<(Seq<char>, Option<Seq<char>>)> {
    p.map_values(|e: (&'static str, Option<&'static str>)| (e.0@, opt_text(e.1)))
}

/// Sum of the bytes of `b`.
pub open spec fn byte_sum(b: Seq<u8>) -> int
    decreases b.len(),
{
    if b.len() == 0 {
        0
    } else {
        byte_sum(b.drop_last()) + b.last()
    }
}

/// A day number as a machine word (`as usize`): itself when not negative,
/// else wrapped round from the top of the word's range.
pub open spec fn day_word(day: int) -> int {
    if day >= 0 {
        day
    } else {
        usize::MAX + 1 + day
    }
}

/// The sum a reminder is picked by: the day number as a machine word,
/// three times the occasion's number and the prayer name's UTF-8 bytes.
pub open spec fn reminder_sum(c: ContentCategory, day: int, prayer: Seq<char>) -> int {
    day_word(day) + category_number(c) * 3 + byte_sum(vstd::utf8::encode_utf8(prayer))
}

/// Position in the pool of the reminder for a day, occasion and prayer:
/// the reminder sum modulo the pool's size.
pub open spec fn reminder_index(c: ContentCategory, day: int, prayer: Seq<char>) -> int {
    reminder_sum(c, day, prayer) % pool_spec(c).len() as int
}

/// Chooses reminders for prayer notifications.
pub struct ContentService;

impl ContentService {
    /// The reminder keys for `category` on day `date` (a day number counted
    /// from 0001-01-01 as day 1; earlier dates are negative) before or at
    /// `prayer_name`. The reminder sum is a machine-word sum that must not
    /// overflow (it does only for dates just before 0001-01-01, or for
    /// names of astronomical length).
    pub fn get_reminder_keys(category: ContentCategory, date: i32, prayer_name: &str) -> (r: IslamicReminderKeys)
        requires
            reminder_sum(category, date as int, prayer_name@) <= usize::MAX,
        ensures
            (r.text_key@, opt_text(r.source_key)) == pool_spec(category)[reminder_index(
                category,
                date as int,
                prayer_name@,
            )],
    {
        let pool = Self::get_pool(category);
        if pool.len() == 0 {
            return IslamicReminderKeys { text_key: "Maintain your prayers consistently.", source_key: None };
        }
        let n = pool.len() as u64;
        let bytes = prayer_name.as_bytes();
        let mut acc: u64 = 0;
        let mut i: usize = 0;
        proof {
            assert(bytes@.take(0) =~= Seq::<u8>::empty());
        }
        while i < bytes.len()
            invariant
                0 < n,
                n == pool_spec(category).len(),
                bytes@ == vstd::utf8::encode_utf8(prayer_name@),
                i <= bytes@.len(),
                acc < n,
                acc == byte_sum(bytes@.take(i as int)) % (n as int),
            decreases bytes@.len() - i,
        {
            proof {
                assert(bytes@.take(i + 1).drop_last() =~= bytes@.take(i as int));
                lemma_add_mod_noop(byte_sum(bytes@.take(i as int)), bytes@[i as int] as int, n as int);
                lemma_mod_bound(bytes@[i as int] as int, n as int);
                lemma_mod_bound(byte_sum(bytes@.take(i as int)) + bytes@[i as int], n as int);
            }
            acc = (acc + (bytes[i] as u64) % n) % n;
            i = i + 1;
        }
        let word: u64 = if date >= 0 {
            date as u64
        } else {
            let back: usize = (-(date as i64)) as usize;
            (usize::MAX - (back - 1)) as u64
        };
        let ghost w = day_word(date as int);
        assert(word == w);
        let day_part = word % n;
        let cat_part = (category_index(category) * 3) % n;
        let index = ((day_part + cat_part) % n + acc) % n;
        proof {
            let s = byte_sum(bytes@);
            assert(bytes@.take(bytes@.len() as int) =~= bytes@);
            lemma_add_mod_noop(w, category_number(category) * 3, n as int);
            lemma_add_mod_noop(w + category_number(category) * 3, s, n as int);
            lemma_mod_bound(w + category_number(category) * 3, n as int);
            lemma_mod_bound(s, n as int);
        }
        let (text_key, source_key) = pool[index as usize];
        IslamicReminderKeys { text_key, source_key }
    }

    /// The reminders of `category`, as (text, source) keys.
    pub fn get_pool(category: ContentCategory) -> (r: Vec<(&'static str, Option<&'static str>)>)
        ensures
            pool_view(r@) == pool_spec(category),
    {
        let r = match category {
            ContentCategory::PrePrayer => vec![
                ("The best of deeds is prayer at its specified time.", Some("Sahih al-Bukhari #527, Sahih Muslim #85")),
                ("Whoever performs Wudu thoroughly, his sins come out from his body.", Some("Sahih Muslim #245")),
                ("Give glad tidings to those who walk to mosques in darkness of perfect light on Judgment Day.", Some("Sunan Abi Dawud #561, Sunan al-Tirmidhi #223")),
                ("Verily, prayer restrains from shameful and unjust deeds.", Some("Surah Al-Ankabut 29:45")),
            ],
            ContentCategory::PrayerTime => vec![
                ("Prayer in congregation is twenty-seven times superior to prayer performed individually.", Some("Sahih al-Bukhari #645, Sahih Muslim #650")),
                ("Whoever performs the two cool prayers (Fajr and Asr) will enter Paradise.", Some("Sahih al-Bukhari #574, Sahih Muslim #635")),
                ("The first thing for which a person will be brought to account on Judgment Day is prayer.", Some("Sunan al-Tirmidhi #413, Sunan an-Nasa'i #3991")),
            ],
            ContentCategory::Iqamah => vec![
                ("When the Iqamah is called, do not come running, but come walking with calmness and dignity.", Some("Sahih al-Bukhari #636, Sahih Muslim #602")),
                ("Do not miss the virtue of praying in congregation.", Some("Sahih al-Bukhari #645")),
                ("Straighten your rows, for straightening the rows is part of establishing prayer.", Some("Sahih al-Bukhari #723, Sahih Muslim #433")),
            ],
            ContentCategory::PreviousCheck => vec![
                ("Whoever forgets a prayer or sleeps through it, its expiation is to pray it when he remembers.", Some("Sahih al-Bukhari #597, Sahih Muslim #684")),
                ("Guard strictly your prayers, especially the middle prayer.", Some("Surah Al-Baqarah 2:238")),
            ],
        };
        proof {
            assert(pool_view(r@) =~= pool_spec(category));
        }
        r
    }
}

} // verus!

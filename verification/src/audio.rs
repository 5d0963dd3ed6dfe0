//! The decisions of the audio worker. The worker owns the output device,
//! the player and the download thread; after each command, finished
//! download, poll of the player or outcome of an operation it reports an
//! event, and `audio_step` says what to do next. The adhan and recitation
//! are mutually exclusive: starting one always stops the other.
use vstd::prelude::*;
use crate::text;

verus! {

/// What the worker is playing.
#[derive(Debug, Clone, Copy, PartialEq, Eq, Structural)]
pub enum PlaybackKind {
    Idle,
    Adhan,
    Recitation,
}

/// The outcome the worker is waiting for before the next event.
#[derive(Debug, Clone, Copy, PartialEq, Eq, Structural)]
pub enum AudioWait {
    /// Nothing: the next event is a command, a finished download or a poll.
    Nothing,
    /// Whether the adhan file started.
    AdhanStart,
    /// Whether the built-in fallback adhan started.
    AdhanFallback,
    /// Whether the first verse loaded, after a poll that saw `len` sources.
    FirstVerse { len: usize },
    /// Whether verse `next` loaded, after a poll that saw `len` sources.
    NextVerse { next: u32, len: usize },
}

/// The worker's state.
pub struct AudioState {
    pub has_player: bool,
    pub kind: PlaybackKind,
    pub is_reciting: bool,
    pub reciter: String,
    pub surah: u32,
    pub verse: u32,
    pub end_verse: u32,
    /// Verses still to play, in order.
    pub queue: Vec<u32>,
    /// The first verse of a recitation is not loaded yet.
    pub pending_first_verse: bool,
    pub last_preloaded: u32,
    pub prev_player_len: usize,
    /// (surah, verse) pairs downloaded and not yet loaded, each once.
    pub downloaded: Vec<(u32, u32)>,
    pub wait: AudioWait,
}

/// What the worker is told.
pub enum AudioEvent {
    /// Play the adhan file at this path (a built-in one under "assets/").
    Play(String),
    /// Recite one verse: reciter, surah, verse.
    PlayVerse(String, u32, u32),
    /// Recite verses of a surah: reciter, surah, first verse, last verse.
    PlaySurah(String, u32, u32, u32),
    Stop,
    /// A download finished: surah, verse, whether it succeeded.
    DownloadFinished(u32, u32, bool),
    /// The player was polled: how many sources it holds, whether it is empty.
    Tick { len: usize, empty: bool },
    /// Whether the adhan (or its fallback) started.
    AdhanStarted(bool),
    /// Whether the verse loaded, and whether the player is empty afterwards.
    VerseLoaded { ok: bool, empty: bool },
}

/// What the worker does.
pub enum AudioAction {
    /// Drops the player without stopping it first.
    DropPlayer,
    /// Stops the player and drops it.
    StopPlayer,
    /// Replaces the player by a new, empty one.
    NewPlayer,
    /// Starts the adhan on a new player: from the built-in sounds or from a file.
    StartAdhan { path: String, builtin: bool },
    /// Starts the built-in fallback adhan on that player.
    StartFallback,
    /// Tells the settings page whether the adhan plays.
    AudioStateChanged(bool),
    /// Tells subscribers whether a recitation plays.
    NotifyRecitation(bool),
    /// Tells subscribers that a verse finished: surah, verse.
    NotifyVerseFinished(u32, u32),
    /// Asks the download thread for a verse.
    Download { reciter: String, surah: u32, verse: u32 },
    /// Appends a downloaded verse to the player.
    LoadVerse { reciter: String, surah: u32, verse: u32 },
}

/// An action with its texts as sequences.
pub enum ActionV {
    DropPlayer,
    StopPlayer,
    NewPlayer,
    StartAdhan(Seq<char>, bool),
    StartFallback,
    AudioStateChanged(bool),
    NotifyRecitation(bool),
    NotifyVerseFinished(u32, u32),
    Download(Seq<char>, u32, u32),
    LoadVerse(Seq<char>, u32, u32),
}

pub open spec fn action_view(a: AudioAction) -> ActionV {
    match a {
        AudioAction::DropPlayer => ActionV::DropPlayer,
        AudioAction::StopPlayer => ActionV::StopPlayer,
        AudioAction::NewPlayer => ActionV::NewPlayer,
        AudioAction::StartAdhan { path, builtin } => ActionV::StartAdhan(path@, builtin),
        AudioAction::StartFallback => ActionV::StartFallback,
        AudioAction::AudioStateChanged(b) => ActionV::AudioStateChanged(b),
        AudioAction::NotifyRecitation(b) => ActionV::NotifyRecitation(b),
        AudioAction::NotifyVerseFinished(s, v) => ActionV::NotifyVerseFinished(s, v),
        AudioAction::Download { reciter, surah, verse } => ActionV::Download(reciter@, surah, verse),
        AudioAction::LoadVerse { reciter, surah, verse } => ActionV::LoadVerse(reciter@, surah, verse),
    }
}

pub open spec fn actions_view(a: Seq<AudioAction>) -> Seq<ActionV> {
    a.map_values(|x: AudioAction| action_view(x))
}

/// The state as values.
#[verifier::ext_equal]
pub struct AudioStateV {
    pub has_player: bool,
    pub kind: PlaybackKind,
    pub is_reciting: bool,
    pub reciter: Seq<char>,
    pub surah: u32,
    pub verse: u32,
    pub end_verse: u32,
    pub queue: Seq<u32>,
    pub pending_first_verse: bool,
    pub last_preloaded: u32,
    pub prev_player_len: usize,
    pub downloaded: Seq<(u32, u32)>,
    pub wait: AudioWait,
}

impl AudioState {
    pub open spec fn view(&self) -> AudioStateV {
        AudioStateV {
            has_player: self.has_player,
            kind: self.kind,
            is_reciting: self.is_reciting,
            reciter: self.reciter@,
            surah: self.surah,
            verse: self.verse,
            end_verse: self.end_verse,
            queue: self.queue@,
            pending_first_verse: self.pending_first_verse,
            last_preloaded: self.last_preloaded,
            prev_player_len: self.prev_player_len,
            downloaded: self.downloaded@,
            wait: self.wait,
        }
    }

    /// The worker's state before any command.
    pub fn new() -> (s: AudioState)
        ensures
            audio_wf(s@),
            s@.kind == PlaybackKind::Idle,
            !s@.has_player,
            s@.queue.len() == 0,
            s@.downloaded.len() == 0,
            s@.wait == AudioWait::Nothing,
    {
        AudioState {
            has_player: false,
            kind: PlaybackKind::Idle,
            is_reciting: false,
            reciter: String::new(),
            surah: 0,
            verse: 0,
            end_verse: 0,
            queue: Vec::new(),
            pending_first_verse: false,
            last_preloaded: 0,
            prev_player_len: 0,
            downloaded: Vec::new(),
            wait: AudioWait::Nothing,
        }
    }
}

/// The state's invariant: a recitation plays exactly when the kind says so,
/// it always has a player, the adhan never plays with it, downloaded pairs
/// occur once, and the queued verses leave room to look ten verses ahead.
pub open spec fn audio_wf(s: AudioStateV) -> bool {
    &&& (s.kind == PlaybackKind::Recitation) == s.is_reciting
    &&& s.is_reciting ==> s.has_player
    &&& s.kind == PlaybackKind::Adhan ==> !s.is_reciting
    &&& s.downloaded.no_duplicates()
    &&& forall|k: int| 0 <= k < s.queue.len() ==> #[trigger] s.queue[k] + 10 <= u32::MAX
    &&& s.end_verse + 10 <= u32::MAX || s.queue.len() == 0
    &&& match s.wait {
        AudioWait::Nothing => true,
        AudioWait::AdhanStart => s.kind == PlaybackKind::Adhan,
        AudioWait::AdhanFallback => s.kind == PlaybackKind::Adhan,
        AudioWait::FirstVerse { .. } => s.is_reciting,
        AudioWait::NextVerse { next, .. } => s.is_reciting && next + 10 <= u32::MAX,
    }
}

/// `s` with `x` added unless it is there.
pub open spec fn with_pair(s: Seq<(u32, u32)>, x: (u32, u32)) -> Seq<(u32, u32)> {
    if s.contains(x) {
        s
    } else {
        s.push(x)
    }
}

/// `s` without `x`.
pub open spec fn without_pair(s: Seq<(u32, u32)>, x: (u32, u32)) -> Seq<(u32, u32)>
    decreases s.len(),
{
    if s.len() == 0 {
        s
    } else if s.last() == x {
        without_pair(s.drop_last(), x)
    } else {
        without_pair(s.drop_last(), x).push(s.last())
    }
}

/// Verses `a` to `b`, in order.
pub open spec fn verse_range(a: int, b: int) -> Seq<u32>
    decreases b - a + 1,
{
    if a > b {
        Seq::empty()
    } else {
        verse_range(a, b - 1).push(b as u32)
    }
}

/// After a poll, or the load it led to: the poll's length is remembered,
/// and an empty player with nothing more to load ends the recitation.
pub open spec fn finish_poll(s: AudioStateV, len: usize, empty: bool) -> (AudioStateV, Seq<ActionV>) {
    let t = AudioStateV { prev_player_len: len, wait: AudioWait::Nothing, ..s };
    if empty && !s.pending_first_verse && s.queue.len() == 0 {
        (
            AudioStateV { is_reciting: false, kind: PlaybackKind::Idle, has_player: false, ..t },
            seq![
                ActionV::NotifyVerseFinished(s.surah, s.verse),
                ActionV::AudioStateChanged(false),
                ActionV::NotifyRecitation(false),
            ],
        )
    } else {
        (t, Seq::empty())
    }
}

/// The downloads a surah recitation asks for first: its first verse and up
/// to ten after it.
pub open spec fn surah_downloads(r: Seq<char>, sn: u32, a: u32, b: u32) -> Seq<ActionV> {
    seq![ActionV::Download(r, sn, a)] + if a < b {
        verse_range(a + 1, if a + 10 < b {
            a + 10
        } else {
            b as int
        }).map_values(|v: u32| ActionV::Download(r, sn, v))
    } else {
        Seq::empty()
    }
}

/// What the worker does on an event, and the state it is in afterwards.
pub open spec fn audio_next(s: AudioStateV, e: EventV) -> (AudioStateV, Seq<ActionV>) {
    match e {
        EventV::Play(path) => (
            AudioStateV {
                has_player: false,
                queue: Seq::empty(),
                is_reciting: false,
                pending_first_verse: false,
                kind: PlaybackKind::Adhan,
                wait: AudioWait::AdhanStart,
                ..s
            },
            seq![
                ActionV::DropPlayer,
                ActionV::AudioStateChanged(true),
                ActionV::NotifyRecitation(false),
                ActionV::StartAdhan(path, path.len() >= 7 && path.take(7) == "assets/"@),
            ],
        ),
        EventV::AdhanStarted(played) => if played {
            (AudioStateV { has_player: true, wait: AudioWait::Nothing, ..s }, Seq::empty())
        } else if s.wait == AudioWait::AdhanStart {
            (AudioStateV { wait: AudioWait::AdhanFallback, ..s }, seq![ActionV::StartFallback])
        } else {
            (
                AudioStateV { kind: PlaybackKind::Idle, has_player: false, wait: AudioWait::Nothing, ..s },
                seq![ActionV::AudioStateChanged(false), ActionV::NotifyRecitation(false)],
            )
        },
        EventV::PlayVerse(r, sn, v) => (
            AudioStateV {
                queue: Seq::empty(),
                is_reciting: true,
                reciter: r,
                surah: sn,
                verse: v,
                downloaded: Seq::empty(),
                pending_first_verse: true,
                kind: PlaybackKind::Recitation,
                has_player: true,
                ..s
            },
            seq![
                ActionV::AudioStateChanged(false),
                ActionV::NotifyRecitation(true),
                ActionV::NewPlayer,
                ActionV::Download(r, sn, v),
            ],
        ),
        EventV::PlaySurah(r, sn, a, b) => (
            AudioStateV {
                queue: if a < b {
                    verse_range(a + 1, b as int)
                } else {
                    Seq::empty()
                },
                downloaded: Seq::empty(),
                is_reciting: true,
                reciter: r,
                surah: sn,
                verse: a,
                end_verse: b,
                pending_first_verse: true,
                kind: PlaybackKind::Recitation,
                has_player: true,
                ..s
            },
            seq![ActionV::AudioStateChanged(false), ActionV::NotifyRecitation(true), ActionV::NewPlayer]
                + surah_downloads(r, sn, a, b),
        ),
        EventV::Stop => (
            AudioStateV {
                has_player: false,
                queue: Seq::empty(),
                downloaded: Seq::empty(),
                is_reciting: false,
                pending_first_verse: false,
                kind: PlaybackKind::Idle,
                ..s
            },
            (if s.has_player {
                seq![ActionV::StopPlayer]
            } else {
                Seq::empty()
            }) + seq![ActionV::AudioStateChanged(false), ActionV::NotifyRecitation(false)],
        ),
        EventV::DownloadFinished(sn, v, ok) => (
            AudioStateV {
                downloaded: if ok {
                    with_pair(s.downloaded, (sn, v))
                } else {
                    s.downloaded
                },
                ..s
            },
            Seq::empty(),
        ),
        EventV::Tick(len, empty) => if s.is_reciting && s.has_player {
            let finished: Seq<ActionV> = if !s.pending_first_verse && s.prev_player_len >= 2 && len
                < s.prev_player_len && s.last_preloaded - 1 >= 1 {
                seq![ActionV::NotifyVerseFinished(s.surah, (s.last_preloaded - 1) as u32)]
            } else {
                Seq::empty()
            };
            if s.pending_first_verse && s.downloaded.contains((s.surah, s.verse)) {
                (
                    AudioStateV {
                        downloaded: without_pair(s.downloaded, (s.surah, s.verse)),
                        wait: AudioWait::FirstVerse { len },
                        ..s
                    },
                    finished.push(ActionV::LoadVerse(s.reciter, s.surah, s.verse)),
                )
            } else if !s.pending_first_verse && len <= 1 && s.queue.len() > 0 && s.downloaded.contains(
                (s.surah, s.queue[0]),
            ) {
                (
                    AudioStateV {
                        downloaded: without_pair(s.downloaded, (s.surah, s.queue[0])),
                        queue: s.queue.drop_first(),
                        wait: AudioWait::NextVerse { next: s.queue[0], len },
                        ..s
                    },
                    finished.push(ActionV::LoadVerse(s.reciter, s.surah, s.queue[0])),
                )
            } else {
                let (t, acts) = finish_poll(s, len, empty);
                (t, finished + acts)
            }
        } else if s.has_player && empty {
            (
                AudioStateV { kind: PlaybackKind::Idle, has_player: false, ..s },
                seq![ActionV::AudioStateChanged(false), ActionV::NotifyRecitation(false)],
            )
        } else {
            (s, Seq::empty())
        },
        EventV::VerseLoaded(ok, empty) => match s.wait {
            AudioWait::FirstVerse { len } => finish_poll(
                AudioStateV { pending_first_verse: if ok { false } else { s.pending_first_verse }, ..s },
                len,
                empty,
            ),
            AudioWait::NextVerse { next, len } => if ok {
                let t = AudioStateV { verse: next, last_preloaded: next, ..s };
                let ahead = (next + 10) as u32;
                let asks: Seq<ActionV> = if ahead <= s.end_verse && !s.downloaded.contains((s.surah, ahead)) {
                    seq![ActionV::Download(s.reciter, s.surah, ahead)]
                } else {
                    Seq::empty()
                };
                let (u, acts) = finish_poll(t, len, empty);
                (u, asks + acts)
            } else {
                finish_poll(s, len, empty)
            },
            _ => (s, Seq::empty()),
        },
    }
}

/// An event with its texts as sequences.
pub enum EventV {
    Play(Seq<char>),
    PlayVerse(Seq<char>, u32, u32),
    PlaySurah(Seq<char>, u32, u32, u32),
    Stop,
    DownloadFinished(u32, u32, bool),
    Tick(usize, bool),
    AdhanStarted(bool),
    VerseLoaded(bool, bool),
}

pub open spec fn event_view(e: AudioEvent) -> EventV {
    match e {
        AudioEvent::Play(p) => EventV::Play(p@),
        AudioEvent::PlayVerse(r, s, v) => EventV::PlayVerse(r@, s, v),
        AudioEvent::PlaySurah(r, s, a, b) => EventV::PlaySurah(r@, s, a, b),
        AudioEvent::Stop => EventV::Stop,
        AudioEvent::DownloadFinished(s, v, ok) => EventV::DownloadFinished(s, v, ok),
        AudioEvent::Tick { len, empty } => EventV::Tick(len, empty),
        AudioEvent::AdhanStarted(b) => EventV::AdhanStarted(b),
        AudioEvent::VerseLoaded { ok, empty } => EventV::VerseLoaded(ok, empty),
    }
}

/// Which events the state accepts: a result only while waiting for it, and
/// anything else only while waiting for nothing. A surah must leave room to
/// look ten verses past its first and last verses, and a poll that sees the
/// player shrink after two sources needs a verse loaded from the queue
/// before (the worker's arithmetic would overflow otherwise).
pub open spec fn accepts(s: AudioStateV, e: EventV) -> bool {
    match e {
        EventV::AdhanStarted(_) => s.wait == AudioWait::AdhanStart || s.wait == AudioWait::AdhanFallback,
        EventV::VerseLoaded(_, _) => s.wait is FirstVerse || s.wait is NextVerse,
        EventV::PlaySurah(_, _, a, b) => s.wait == AudioWait::Nothing && a + 10 <= u32::MAX && b + 10
            <= u32::MAX,
        EventV::Tick(len, _) => s.wait == AudioWait::Nothing && (s.is_reciting && s.has_player
            && !s.pending_first_verse && s.prev_player_len >= 2 && len < s.prev_player_len
            ==> s.last_preloaded >= 1),
        _ => s.wait == AudioWait::Nothing,
    }
}

/// Does every action of `extra` in order.
fn push_all(out: &mut Vec<AudioAction>, extra: Vec<AudioAction>)
    ensures
        actions_view(final(out)@) == actions_view(old(out)@) + actions_view(extra@),
{
    let ghost start = out@;
    let ghost src = extra@;
    let mut rest = extra;
    let n = rest.len();
    let mut i: usize = 0;
    while i < n
        invariant
            n == src.len(),
            i <= n,
            rest@ == src.subrange(i as int, n as int),
            actions_view(out@) == actions_view(start) + actions_view(src.take(i as int)),
        decreases n - i,
    {
        let a = rest.remove(0);
        proof {
            assert(src.take(i + 1) =~= src.take(i as int).push(a));
            assert(actions_view(src.take(i + 1)) =~= actions_view(src.take(i as int)).push(action_view(a)));
        }
        let ghost before = out@;
        out.push(a);
        proof {
            assert(actions_view(out@) =~= actions_view(before).push(action_view(a)));
        }
        i = i + 1;
    }
    proof {
        assert(src.take(n as int) =~= src);
    }
}

fn contains_pair(v: &Vec<(u32, u32)>, x: (u32, u32)) -> (r: bool)
    ensures
        r == v@.contains(x),
{
    let mut i: usize = 0;
    while i < v.len()
        invariant
            i <= v@.len(),
            forall|k: int| 0 <= k < i ==> v@[k] != x,
        decreases v@.len() - i,
    {
        if v[i].0 == x.0 && v[i].1 == x.1 {
            proof {
                assert(v@[i as int] == x);
            }
            return true;
        }
        i = i + 1;
    }
    false
}

proof fn lemma_without_pair(s: Seq<(u32, u32)>, x: (u32, u32))
    requires
        s.no_duplicates(),
    ensures
        without_pair(s, x).no_duplicates(),
        !without_pair(s, x).contains(x),
        forall|y: (u32, u32)| y != x ==> (without_pair(s, x).contains(y) == s.contains(y)),
    decreases s.len(),
{
    if s.len() > 0 {
        let init = s.drop_last();
        let last = s.last();
        assert(init.no_duplicates());
        assert(s =~= init.push(last));
        lemma_without_pair(init, x);
        if last != x {
            assert(!init.contains(last)) by {
                if init.contains(last) {
                    let j = choose|j: int| 0 <= j < init.len() && init[j] == last;
                    assert(s[j] == s[s.len() - 1]);
                }
            }
        }
        assert forall|y: (u32, u32)| y != x implies (without_pair(s, x).contains(y) == s.contains(y)) by {
            if s.contains(y) {
                let j = choose|j: int| 0 <= j < s.len() && s[j] == y;
                if j < s.len() - 1 {
                    assert(init[j] == y);
                }
            }
            if last != x {
                let w = without_pair(init, x);
                if w.push(last).contains(y) {
                    let j = choose|j: int| 0 <= j < w.push(last).len() && w.push(last)[j] == y;
                    if j < w.len() {
                        assert(w[j] == y);
                    }
                }
                if w.contains(y) {
                    let j = choose|j: int| 0 <= j < w.len() && w[j] == y;
                    assert(w.push(last)[j] == y);
                }
                if y == last {
                    assert(w.push(last)[w.len() as int] == y);
                }
            }
            if init.contains(y) {
                let j = choose|j: int| 0 <= j < init.len() && init[j] == y;
                assert(s[j] == y);
            }
        }
        if last != x {
            let w = without_pair(init, x);
            assert(!w.contains(last));
            assert(w.push(last).no_duplicates()) by {
                let t = w.push(last);
                assert forall|i: int, j: int| 0 <= i < t.len() && 0 <= j < t.len() && i != j implies t[i] != t[j] by {
                    if j == t.len() - 1 {
                        assert(t[i] == w[i]);
                    } else if i == t.len() - 1 {
                        assert(t[j] == w[j]);
                    }
                }
            }
            assert(!w.push(last).contains(x)) by {
                if w.push(last).contains(x) {
                    let j = choose|j: int| 0 <= j < w.push(last).len() && w.push(last)[j] == x;
                    if j < w.len() {
                        assert(w[j] == x);
                    }
                }
            }
        }
    }
}

fn remove_pair(v: &mut Vec<(u32, u32)>, x: (u32, u32))
    ensures
        final(v)@ == without_pair(old(v)@, x),
{
    let ghost start = v@;
    let mut rest: Vec<(u32, u32)> = Vec::new();
    std::mem::swap(&mut rest, v);
    let n = rest.len();
    let mut i: usize = 0;
    while i < n
        invariant
            n == start.len(),
            i <= n,
            rest@ == start,
            v@ == without_pair(start.take(i as int), x),
        decreases n - i,
    {
        let y = rest[i];
        proof {
            assert(start.take(i + 1).drop_last() =~= start.take(i as int));
            assert(start.take(i + 1).last() == y);
        }
        if !(y.0 == x.0 && y.1 == x.1) {
            v.push(y);
        }
        i = i + 1;
    }
    proof {
        assert(start.take(n as int) =~= start);
    }
}

fn verses_between(a: u32, b: u32) -> (r: Vec<u32>)
    requires
        a >= 1,
    ensures
        r@ == verse_range(a as int, b as int),
{
    let mut r: Vec<u32> = Vec::new();
    let mut v: u32 = a;
    if a > b {
        return r;
    }
    while v <= b
        invariant
            a <= v,
            v <= b + 1,
            a <= b,
            r@ == verse_range(a as int, v - 1),
        decreases b + 1 - v,
    {
        r.push(v);
        proof {
            assert(verse_range(a as int, v as int) == verse_range(a as int, v - 1).push(v));
        }
        if v == b {
            proof {
                assert(r@ == verse_range(a as int, b as int));
            }
            return r;
        }
        v = v + 1;
    }
    r
}


fn starts_with_assets(p: &str) -> (r: bool)
    ensures
        r == (p@.len() >= 7 && p@.take(7) == "assets/"@),
{
    let cs = text::chars_of(p);
    let prefix = text::chars_of("assets/");
    proof {
        reveal_strlit("assets/");
    }
    if cs.len() < 7 {
        return false;
    }
    let mut i: usize = 0;
    while i < 7
        invariant
            cs@ == p@,
            prefix@ == "assets/"@,
            prefix@.len() == 7,
            cs@.len() >= 7,
            i <= 7,
            forall|k: int| 0 <= k < i ==> cs@[k] == prefix@[k],
        decreases 7 - i,
    {
        if cs[i] != prefix[i] {
            proof {
                assert(p@.take(7)[i as int] != "assets/"@[i as int]);
            }
            return false;
        }
        i = i + 1;
    }
    proof {
        assert(p@.take(7) =~= "assets/"@);
    }
    true
}

fn finish_poll_exec(state: &mut AudioState, len: usize, empty: bool) -> (r: Vec<AudioAction>)
    requires
        audio_wf(old(state)@),
    ensures
        final(state)@ == finish_poll(old(state)@, len, empty).0,
        actions_view(r@) == finish_poll(old(state)@, len, empty).1,
{
    state.prev_player_len = len;
    state.wait = AudioWait::Nothing;
    let mut r: Vec<AudioAction> = Vec::new();
    if empty && !state.pending_first_verse && state.queue.len() == 0 {
        r.push(AudioAction::NotifyVerseFinished(state.surah, state.verse));
        r.push(AudioAction::AudioStateChanged(false));
        r.push(AudioAction::NotifyRecitation(false));
        state.is_reciting = false;
        state.kind = PlaybackKind::Idle;
        state.has_player = false;
    }
    proof {
        assert(actions_view(r@) =~= finish_poll(old(state)@, len, empty).1);
    }
    r
}

/// What the audio worker does on `event`; the state moves on accordingly.
pub fn audio_step(state: &mut AudioState, event: AudioEvent) -> (r: Vec<AudioAction>)
    requires
        audio_wf(old(state)@),
        accepts(old(state)@, event_view(event)),
    ensures
        audio_wf(final(state)@),
        final(state)@ == audio_next(old(state)@, event_view(event)).0,
        actions_view(r@) == audio_next(old(state)@, event_view(event)).1,
{
    let ghost s0 = state@;
    let mut r: Vec<AudioAction> = Vec::new();
    match event {
        AudioEvent::Play(path) => {
            let builtin = starts_with_assets(path.as_str());
            state.has_player = false;
            state.queue = Vec::new();
            state.is_reciting = false;
            state.pending_first_verse = false;
            state.kind = PlaybackKind::Adhan;
            state.wait = AudioWait::AdhanStart;
            r.push(AudioAction::DropPlayer);
            r.push(AudioAction::AudioStateChanged(true));
            r.push(AudioAction::NotifyRecitation(false));
            r.push(AudioAction::StartAdhan { path, builtin });
            proof {
                assert(actions_view(r@) =~= audio_next(s0, event_view(event)).1);
            }
        },
        AudioEvent::AdhanStarted(played) => {
            if played {
                state.has_player = true;
                state.wait = AudioWait::Nothing;
            } else if state.wait == AudioWait::AdhanStart {
                state.wait = AudioWait::AdhanFallback;
                r.push(AudioAction::StartFallback);
            } else {
                state.kind = PlaybackKind::Idle;
                state.has_player = false;
                state.wait = AudioWait::Nothing;
                r.push(AudioAction::AudioStateChanged(false));
                r.push(AudioAction::NotifyRecitation(false));
            }
            proof {
                assert(actions_view(r@) =~= audio_next(s0, event_view(event)).1);
            }
        },
        AudioEvent::PlayVerse(reciter, sn, v) => {
            state.queue = Vec::new();
            state.is_reciting = true;
            state.reciter = reciter.clone();
            state.surah = sn;
            state.verse = v;
            state.downloaded = Vec::new();
            state.pending_first_verse = true;
            state.kind = PlaybackKind::Recitation;
            state.has_player = true;
            r.push(AudioAction::AudioStateChanged(false));
            r.push(AudioAction::NotifyRecitation(true));
            r.push(AudioAction::NewPlayer);
            r.push(AudioAction::Download { reciter, surah: sn, verse: v });
            proof {
                assert(actions_view(r@) =~= audio_next(s0, event_view(event)).1);
            }
        },
        AudioEvent::PlaySurah(reciter, sn, a, b) => {
            state.downloaded = Vec::new();
            state.is_reciting = true;
            state.reciter = reciter.clone();
            state.surah = sn;
            state.verse = a;
            state.end_verse = b;
            state.pending_first_verse = true;
            state.kind = PlaybackKind::Recitation;
            state.has_player = true;
            r.push(AudioAction::AudioStateChanged(false));
            r.push(AudioAction::NotifyRecitation(true));
            r.push(AudioAction::NewPlayer);
            r.push(AudioAction::Download { reciter: reciter.clone(), surah: sn, verse: a });
            let ghost head = r@;
            if a < b {
                let last = if a + 10 < b {
                    a + 10
                } else {
                    b
                };
                let ahead = verses_between(a + 1, last);
                let mut k: usize = 0;
                while k < ahead.len()
                    invariant
                        k <= ahead@.len(),
                        ahead@ == verse_range(a + 1, last as int),
                        actions_view(r@) == actions_view(head) + ahead@.take(k as int).map_values(
                            |v: u32| ActionV::Download(reciter@, sn, v),
                        ),
                    decreases ahead@.len() - k,
                {
                    let ghost before = r@;
                    r.push(AudioAction::Download { reciter: reciter.clone(), surah: sn, verse: ahead[k] });
                    proof {
                        assert(actions_view(r@) =~= actions_view(before).push(ActionV::Download(reciter@, sn, ahead@[k as int])));
                        assert(ahead@.take(k + 1).map_values(|v: u32| ActionV::Download(reciter@, sn, v))
                            =~= ahead@.take(k as int).map_values(|v: u32| ActionV::Download(reciter@, sn, v)).push(
                            ActionV::Download(reciter@, sn, ahead@[k as int])));
                    }
                    k = k + 1;
                }
                proof {
                    assert(ahead@.take(ahead@.len() as int) =~= ahead@);
                }
                state.queue = verses_between(a + 1, b);
                proof {
                    lemma_verse_range_bounds(a + 1, b as int);
                }
            } else {
                state.queue = Vec::new();
            }
            proof {
                assert(actions_view(r@) =~= audio_next(s0, event_view(event)).1);
            }
        },
        AudioEvent::Stop => {
            if state.has_player {
                r.push(AudioAction::StopPlayer);
            }
            state.has_player = false;
            state.queue = Vec::new();
            state.downloaded = Vec::new();
            state.is_reciting = false;
            state.pending_first_verse = false;
            state.kind = PlaybackKind::Idle;
            r.push(AudioAction::AudioStateChanged(false));
            r.push(AudioAction::NotifyRecitation(false));
            proof {
                assert(actions_view(r@) =~= audio_next(s0, event_view(event)).1);
            }
        },
        AudioEvent::DownloadFinished(sn, v, ok) => {
            if ok && !contains_pair(&state.downloaded, (sn, v)) {
                state.downloaded.push((sn, v));
            }
            proof {
                assert(actions_view(r@) =~= audio_next(s0, event_view(event)).1);
            }
        },
        AudioEvent::Tick { len, empty } => {
            if state.is_reciting && state.has_player {
                let mut finished: Vec<AudioAction> = Vec::new();
                if !state.pending_first_verse && state.prev_player_len >= 2 && len < state.prev_player_len
                    && state.last_preloaded - 1 >= 1 {
                    finished.push(AudioAction::NotifyVerseFinished(state.surah, state.last_preloaded - 1));
                }
                let first = (state.surah, state.verse);
                if state.pending_first_verse && contains_pair(&state.downloaded, first) {
                    proof {
                        lemma_without_pair(state.downloaded@, first);
                    }
                    remove_pair(&mut state.downloaded, first);
                    state.wait = AudioWait::FirstVerse { len };
                    finished.push(AudioAction::LoadVerse {
                        reciter: state.reciter.clone(),
                        surah: state.surah,
                        verse: state.verse,
                    });
                    r = finished;
                } else if !state.pending_first_verse && len <= 1 && state.queue.len() > 0
                    && contains_pair(&state.downloaded, (state.surah, state.queue[0])) {
                    let next = state.queue[0];
                    proof {
                        lemma_without_pair(state.downloaded@, (state.surah, next));
                    }
                    remove_pair(&mut state.downloaded, (state.surah, next));
                    let ghost q = state.queue@;
                    state.queue.remove(0);
                    proof {
                        assert(state.queue@ =~= q.drop_first());
                    }
                    state.wait = AudioWait::NextVerse { next, len };
                    finished.push(AudioAction::LoadVerse { reciter: state.reciter.clone(), surah: state.surah, verse: next });
                    r = finished;
                } else {
                    let tail = finish_poll_exec(state, len, empty);
                    r = finished;
                    push_all(&mut r, tail);
                }
                proof {
                    assert(actions_view(r@) =~= audio_next(s0, event_view(event)).1);
                }
            } else if state.has_player && empty {
                state.kind = PlaybackKind::Idle;
                state.has_player = false;
                r.push(AudioAction::AudioStateChanged(false));
                r.push(AudioAction::NotifyRecitation(false));
                proof {
                    assert(actions_view(r@) =~= audio_next(s0, event_view(event)).1);
                }
            }
        },
        AudioEvent::VerseLoaded { ok, empty } => {
            match state.wait {
                AudioWait::FirstVerse { len } => {
                    if ok {
                        state.pending_first_verse = false;
                    }
                    r = finish_poll_exec(state, len, empty);
                },
                AudioWait::NextVerse { next, len } => {
                    if ok {
                        state.verse = next;
                        state.last_preloaded = next;
                        let ahead = next + 10;
                        if ahead <= state.end_verse && !contains_pair(&state.downloaded, (state.surah, ahead)) {
                            r.push(AudioAction::Download { reciter: state.reciter.clone(), surah: state.surah, verse: ahead });
                        }
                        let tail = finish_poll_exec(state, len, empty);
                        push_all(&mut r, tail);
                    } else {
                        r = finish_poll_exec(state, len, empty);
                    }
                },
                _ => {},
            }
            proof {
                assert(actions_view(r@) =~= audio_next(s0, event_view(event)).1);
            }
        },
    }
    r
}

proof fn lemma_verse_range_bounds(a: int, b: int)
    requires
        0 <= a,
        b <= u32::MAX,
    ensures
        forall|k: int| 0 <= k < verse_range(a, b).len() ==> a <= #[trigger] verse_range(a, b)[k] <= b,
        verse_range(a, b).len() == (if a > b { 0 } else { b - a + 1 }),
    decreases b - a + 1,
{
    if a <= b {
        lemma_verse_range_bounds(a, b - 1);
        let init = verse_range(a, b - 1);
        assert(verse_range(a, b) == init.push(b as u32));
        assert forall|k: int| 0 <= k < verse_range(a, b).len() implies a <= #[trigger] verse_range(a, b)[k] <= b by {
            if k < init.len() {
                assert(verse_range(a, b)[k] == init[k]);
            }
        }
    }
}

// ── Laws ──────────────────────────────────────────────────────────────────
/// Every accepted event keeps the state's invariant; in particular the adhan
/// and a recitation never play together.
pub proof fn lemma_audio_step_keeps_invariant(s: AudioStateV, e: EventV)
    requires
        audio_wf(s),
        accepts(s, e),
    ensures
        audio_wf(audio_next(s, e).0),
        audio_next(s, e).0.kind == PlaybackKind::Adhan ==> !audio_next(s, e).0.is_reciting,
{
    match e {
        EventV::PlaySurah(r, sn, a, b) => {
            lemma_verse_range_bounds(a + 1, b as int);
        },
        EventV::DownloadFinished(sn, v, ok) => {
            if ok && !s.downloaded.contains((sn, v)) {
                assert(s.downloaded.push((sn, v)).no_duplicates()) by {
                    let t = s.downloaded.push((sn, v));
                    assert forall|i: int, j: int| 0 <= i < t.len() && 0 <= j < t.len() && i != j implies t[i] != t[j] by {
                        if j == t.len() - 1 {
                            assert(t[i] == s.downloaded[i]);
                        } else if i == t.len() - 1 {
                            assert(t[j] == s.downloaded[j]);
                        }
                    }
                }
            }
        },
        EventV::Tick(len, empty) => {
            lemma_without_pair(s.downloaded, (s.surah, s.verse));
            if s.queue.len() > 0 {
                lemma_without_pair(s.downloaded, (s.surah, s.queue[0]));
                assert(s.queue[0] + 10 <= u32::MAX);
                assert forall|k: int| 0 <= k < s.queue.drop_first().len() implies #[trigger] s.queue.drop_first()[k] + 10 <= u32::MAX by {
                    assert(s.queue.drop_first()[k] == s.queue[k + 1]);
                }
            }
        },
        _ => {},
    }
}

/// Playing the adhan stops any recitation, and reciting stops the adhan.
pub proof fn lemma_adhan_and_recitation_exclusive(s: AudioStateV, e: EventV)
    requires
        audio_wf(s),
        accepts(s, e),
    ensures
        e is Play ==> audio_next(s, e).0.kind == PlaybackKind::Adhan && !audio_next(s, e).0.is_reciting
            && audio_next(s, e).0.queue.len() == 0,
        (e is PlayVerse || e is PlaySurah) ==> audio_next(s, e).0.kind == PlaybackKind::Recitation
            && audio_next(s, e).0.is_reciting,
        e is Stop ==> audio_next(s, e).0.kind == PlaybackKind::Idle && !audio_next(s, e).0.has_player,
{
}

// ── Files and addresses ───────────────────────────────────────────────────
/// The file name of a verse's recording: surah and verse, three digits
/// each, then ".mp3".
pub open spec fn verse_file_name(surah: u32, verse: u32) -> Seq<char> {
    text::zero_padded(text::decimal_text(surah as nat), 3) + text::zero_padded(text::decimal_text(verse as nat), 3)
        + ".mp3"@
}

fn push_verse_file_name(s: &mut String, surah: u32, verse: u32)
    ensures
        final(s)@ == old(s)@ + verse_file_name(surah, verse),
{
    text::push_zero_padded(s, surah as u64, 3);
    text::push_zero_padded(s, verse as u64, 3);
    s.append(".mp3");
    proof {
        assert(final(s)@ =~= old(s)@ + verse_file_name(surah, verse));
    }
}

/// Where a downloaded verse is kept under the user's cache directory.
pub fn cache_path(cache_dir: &str, reciter: &str, surah_number: u32, verse: u32) -> (r: String)
    ensures
        r@ == cache_dir@ + "/khushu/recitations/"@ + reciter@ + "/"@ + verse_file_name(surah_number, verse),
{
    let mut r = text::to_owned_string(cache_dir);
    r.append("/khushu/recitations/");
    r.append(reciter);
    r.append("/");
    push_verse_file_name(&mut r, surah_number, verse);
    r
}

/// The address a verse's recording is downloaded from.
pub fn verse_audio_url(reciter: &str, surah_number: u32, verse: u32) -> (r: String)
    ensures
        r@ == "https://everyayah.com/data/"@ + reciter@ + "/"@ + verse_file_name(surah_number, verse),
{
    let mut r = text::to_owned_string("https://everyayah.com/data/");
    r.append(reciter);
    r.append("/");
    push_verse_file_name(&mut r, surah_number, verse);
    r
}

/// `t` with every leading copy of `p` removed (`trim_start_matches`).
pub open spec fn trim_start_all(t: Seq<char>, p: Seq<char>) -> Seq<char>
    decreases t.len(),
{
    if p.len() > 0 && t.len() >= p.len() && t.take(p.len() as int) == p {
        trim_start_all(t.skip(p.len() as int), p)
    } else {
        t
    }
}

fn trim_start_matches(t: &[char], p: &[char]) -> (r: Vec<char>)
    ensures
        r@ == trim_start_all(t@, p@),
{
    let mut i: usize = 0;
    proof {
        assert(t@.skip(0) =~= t@);
    }
    while p.len() > 0 && p.len() <= t.len() - i && text::chars_match_at(t, p, i)
        invariant
            i <= t@.len(),
            trim_start_all(t@, p@) == trim_start_all(t@.skip(i as int), p@),
        decreases t@.len() - i,
    {
        proof {
            assert(t@.skip(i as int).take(p@.len() as int) =~= t@.subrange(i as int, i + p@.len()));
            assert(t@.skip(i as int).skip(p@.len() as int) =~= t@.skip(i + p@.len()));
        }
        i = i + p.len();
    }
    proof {
        if p@.len() > 0 && i + p@.len() <= t@.len() {
            assert(t@.skip(i as int).take(p@.len() as int) =~= t@.subrange(i as int, i + p@.len()));
        }
    }
    let mut r: Vec<char> = Vec::new();
    let mut k: usize = i;
    while k < t.len()
        invariant
            i <= k <= t@.len(),
            r@ == t@.subrange(i as int, k as int),
        decreases t@.len() - k,
    {
        r.push(t[k]);
        proof {
            assert(t@.subrange(i as int, k + 1) =~= t@.subrange(i as int, k as int).push(t@[k as int]));
        }
        k = k + 1;
    }
    proof {
        assert(t@.subrange(i as int, t@.len() as int) =~= t@.skip(i as int));
    }
    r
}

/// The key of a built-in sound: its path with every leading "assets/audio/"
/// and then every leading "assets/" removed.
pub fn builtin_audio_key(path: &str) -> (r: String)
    ensures
        r@ == trim_start_all(trim_start_all(path@, "assets/audio/"@), "assets/"@),
{
    let cs = text::chars_of(path);
    let a = text::chars_of("assets/audio/");
    let b = text::chars_of("assets/");
    let first = trim_start_matches(cs.as_slice(), a.as_slice());
    let second = trim_start_matches(first.as_slice(), b.as_slice());
    text::string_from_chars(second.as_slice())
}

} // verus!

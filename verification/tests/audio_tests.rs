use khushu::audio::{audio_step, builtin_audio_key, cache_path, verse_audio_url, AudioAction, AudioEvent, AudioState, AudioWait, PlaybackKind};

fn downloads_of(actions: &[AudioAction]) -> Vec<(u32, u32)> {
    actions
        .iter()
        .filter_map(|a| match a {
            AudioAction::Download { surah, verse, .. } => Some((*surah, *verse)),
            _ => None,
        })
        .collect()
}

#[test]
fn builtin_adhan_starts_on_a_fresh_player() {
    let mut state = AudioState::new();
    let actions = audio_step(&mut state, AudioEvent::Play("assets/adhan.ogg".to_string()));
    assert_eq!(actions.len(), 4);
    assert!(matches!(actions[0], AudioAction::DropPlayer));
    assert!(matches!(actions[1], AudioAction::AudioStateChanged(true)));
    assert!(matches!(actions[2], AudioAction::NotifyRecitation(false)));
    match &actions[3] {
        AudioAction::StartAdhan { path, builtin } => {
            assert_eq!(path, "assets/adhan.ogg");
            assert!(*builtin);
        }
        _ => panic!("expected StartAdhan"),
    }
    assert_eq!(state.kind, PlaybackKind::Adhan);
    assert_eq!(state.wait, AudioWait::AdhanStart);
}

#[test]
fn adhan_file_outside_assets_is_not_builtin() {
    let mut state = AudioState::new();
    let actions = audio_step(&mut state, AudioEvent::Play("/home/u/adhan.mp3".to_string()));
    assert!(matches!(&actions[3], AudioAction::StartAdhan { builtin: false, .. }));
}

#[test]
fn failed_adhan_falls_back_then_gives_up() {
    let mut state = AudioState::new();
    audio_step(&mut state, AudioEvent::Play("/missing.mp3".to_string()));
    let first = audio_step(&mut state, AudioEvent::AdhanStarted(false));
    assert_eq!(first.len(), 1);
    assert!(matches!(first[0], AudioAction::StartFallback));
    assert_eq!(state.wait, AudioWait::AdhanFallback);
    let second = audio_step(&mut state, AudioEvent::AdhanStarted(false));
    assert_eq!(second.len(), 2);
    assert!(matches!(second[0], AudioAction::AudioStateChanged(false)));
    assert!(matches!(second[1], AudioAction::NotifyRecitation(false)));
    assert_eq!(state.kind, PlaybackKind::Idle);
    assert!(!state.has_player);
}

#[test]
fn surah_recitation_queues_verses_and_looks_ten_ahead() {
    let mut state = AudioState::new();
    let actions = audio_step(&mut state, AudioEvent::PlaySurah("Alafasy".to_string(), 2, 1, 20));
    assert!(matches!(actions[0], AudioAction::AudioStateChanged(false)));
    assert!(matches!(actions[1], AudioAction::NotifyRecitation(true)));
    assert!(matches!(actions[2], AudioAction::NewPlayer));
    let expected: Vec<(u32, u32)> = (1..=11).map(|v| (2, v)).collect();
    assert_eq!(downloads_of(&actions), expected);
    assert_eq!(state.queue, (2..=20).collect::<Vec<u32>>());
    assert!(state.is_reciting);
    assert!(state.pending_first_verse);
}

#[test]
fn short_surah_downloads_only_its_verses() {
    let mut state = AudioState::new();
    let actions = audio_step(&mut state, AudioEvent::PlaySurah("r".to_string(), 112, 1, 4));
    assert_eq!(downloads_of(&actions), vec![(112, 1), (112, 2), (112, 3), (112, 4)]);
}

#[test]
fn first_verse_loads_once_downloaded() {
    let mut state = AudioState::new();
    audio_step(&mut state, AudioEvent::PlayVerse("r".to_string(), 1, 1));
    let idle = audio_step(&mut state, AudioEvent::Tick { len: 0, empty: true });
    assert!(idle.is_empty());
    assert!(state.is_reciting);
    audio_step(&mut state, AudioEvent::DownloadFinished(1, 1, true));
    assert_eq!(state.downloaded, vec![(1, 1)]);
    let load = audio_step(&mut state, AudioEvent::Tick { len: 0, empty: true });
    assert_eq!(load.len(), 1);
    match &load[0] {
        AudioAction::LoadVerse { reciter, surah, verse } => {
            assert_eq!(reciter, "r");
            assert_eq!((*surah, *verse), (1, 1));
        }
        _ => panic!("expected LoadVerse"),
    }
    assert_eq!(state.wait, AudioWait::FirstVerse { len: 0 });
    assert!(state.downloaded.is_empty());
    let after = audio_step(&mut state, AudioEvent::VerseLoaded { ok: true, empty: false });
    assert!(after.is_empty());
    assert!(!state.pending_first_verse);
    assert_eq!(state.wait, AudioWait::Nothing);
    let done = audio_step(&mut state, AudioEvent::Tick { len: 0, empty: true });
    assert_eq!(done.len(), 3);
    assert!(matches!(done[0], AudioAction::NotifyVerseFinished(1, 1)));
    assert!(!state.is_reciting);
    assert_eq!(state.kind, PlaybackKind::Idle);
}

#[test]
fn duplicate_downloads_are_kept_once() {
    let mut state = AudioState::new();
    audio_step(&mut state, AudioEvent::PlayVerse("r".to_string(), 1, 1));
    audio_step(&mut state, AudioEvent::DownloadFinished(1, 2, true));
    audio_step(&mut state, AudioEvent::DownloadFinished(1, 2, true));
    audio_step(&mut state, AudioEvent::DownloadFinished(1, 3, false));
    assert_eq!(state.downloaded, vec![(1, 2)]);
}

#[test]
fn adhan_stops_a_recitation() {
    let mut state = AudioState::new();
    audio_step(&mut state, AudioEvent::PlaySurah("r".to_string(), 1, 1, 7));
    assert!(state.is_reciting);
    audio_step(&mut state, AudioEvent::Play("assets/a.ogg".to_string()));
    assert!(!state.is_reciting);
    assert!(state.queue.is_empty());
    assert_eq!(state.kind, PlaybackKind::Adhan);
    audio_step(&mut state, AudioEvent::AdhanStarted(true));
    audio_step(&mut state, AudioEvent::PlayVerse("r".to_string(), 1, 2));
    assert_eq!(state.kind, PlaybackKind::Recitation);
}

#[test]
fn stop_stops_the_player_only_when_there_is_one() {
    let mut state = AudioState::new();
    let idle = audio_step(&mut state, AudioEvent::Stop);
    assert_eq!(idle.len(), 2);
    audio_step(&mut state, AudioEvent::PlayVerse("r".to_string(), 1, 1));
    let playing = audio_step(&mut state, AudioEvent::Stop);
    assert_eq!(playing.len(), 3);
    assert!(matches!(playing[0], AudioAction::StopPlayer));
    assert!(!state.has_player);
}

#[test]
fn verse_files_and_addresses() {
    assert_eq!(
        cache_path("/home/u/.cache", "Alafasy_128kbps", 2, 255),
        "/home/u/.cache/khushu/recitations/Alafasy_128kbps/002255.mp3"
    );
    assert_eq!(
        verse_audio_url("Alafasy_128kbps", 114, 6),
        "https://everyayah.com/data/Alafasy_128kbps/114006.mp3"
    );
    assert_eq!(verse_audio_url("r", 1, 1000), "https://everyayah.com/data/r/0011000.mp3");
}

#[test]
fn builtin_sounds_are_keyed_by_file_name() {
    assert_eq!(builtin_audio_key("assets/audio/Makkah.mp3"), "Makkah.mp3");
    assert_eq!(builtin_audio_key("assets/Madinah.mp3"), "Madinah.mp3");
    assert_eq!(builtin_audio_key("assets/audio/assets/audio/x.mp3"), "x.mp3");
    assert_eq!(builtin_audio_key("/tmp/a.mp3"), "/tmp/a.mp3");
}

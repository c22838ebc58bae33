use lyrc::app::App;
use lyrc::clock::PlaybackClock;
use lyrc::config::Config;
use lyrc::cues::{AlignedCue, Cue, SubtitleCues, SubtitleDocument, SubtitleMetadata, Word};
use lyrc::mode::AppMode;
use lyrc::state::{AppState, PlaybackStatus, PlayerEvent, StateUpdate, SubtitleVariant, Track};
use lyrc::synchronizer::{
    ActiveIndex, AppSynchronizer, CueIndex, CueSynchronizer, SyncEvent, SynchronizerMode, WordIndex, WordSynchronizer,
};

fn track(title: &str) -> Track {
    Track {
        album: Some("Lux (Complete Works)".to_string()),
        disc_number: None,
        title: title.to_string(),
        track_number: Some(3),
        duration: 248_000_000,
        id: None,
        genres: vec![],
        artists: vec!["Rosalía".to_string()],
        album_artists: vec![],
        file_path: Some(format!("/music/{}.flac", title)),
    }
}

fn cues() -> SubtitleCues {
    SubtitleCues::Cue(vec![
        Cue { id: 1, start: 0, end: 2_000_000, content: "a".to_string() },
        Cue { id: 2, start: 1_000_000, end: 3_000_000, content: "b".to_string() },
        Cue { id: 3, start: 3_000_000, end: 4_000_000, content: "c".to_string() },
    ])
}

fn words() -> SubtitleCues {
    let w = |s: i64, e: i64, t: &str| Word { start: s, end: e, content: t.to_string() };
    SubtitleCues::Word(vec![AlignedCue {
        id: 1,
        start: 0,
        end: 2_000_000,
        words: vec![w(0, 1_000_000, "hola"), w(1_000_000, 2_000_000, "mundo")],
    }])
}

fn editor(c: SubtitleCues) -> App {
    let mut app = App::new(&Config::default());
    app.state.track = Some(track("Porcelana"));
    let document = SubtitleDocument {
        metadata: SubtitleMetadata { album: None, title: None, artists: vec![], languages: vec![], file_path: None },
        cues: c,
    };
    app.state.reload_subtitle_documents(vec![(SubtitleVariant::Original, document)]);
    app
}

#[test]
fn clock_counts_only_while_playing() {
    let mut clock = PlaybackClock::new(250_000);
    assert_eq!(clock.get_position(), 250_000);
    clock.advance(100, 5_000_000, PlaybackStatus::Playing);
    assert_eq!(clock.get_position(), 5_250_000);
    clock.advance(400_000, 5_000_000, PlaybackStatus::Paused);
    assert_eq!(clock.get_position(), 5_650_000);
    clock.advance(400_000, 5_000_000, PlaybackStatus::Paused);
    assert_eq!(clock.get_position(), 5_650_000);
    clock.advance(1, 9_000_000, PlaybackStatus::Playing);
    assert_eq!(clock.get_position(), 9_250_000);
}

#[test]
fn clock_takes_a_jump_as_whole_seconds_and_rest() {
    let mut clock = PlaybackClock::new(0);
    clock.update(&PlayerEvent::Seeked(12_345_678));
    assert_eq!(clock.last_position, 12_000_000);
    assert_eq!(clock.interpolated_duration, 345_678);
    assert_eq!(clock.get_position(), 12_345_678);
    clock.update(&PlayerEvent::Seeked(-1_500_000));
    assert_eq!(clock.last_position, -1_000_000);
    assert_eq!(clock.interpolated_duration, -500_000);
    clock.update(&PlayerEvent::PlaybackChanged(PlaybackStatus::Paused));
    assert_eq!(clock.get_position(), -1_500_000);
}

#[test]
fn clock_sync_keeps_reported_position() {
    let mut clock = PlaybackClock::new(0);
    assert_eq!(clock.sync(7_000_000, PlaybackStatus::Playing), Ok(()));
    assert_eq!(clock.last_position, 7_000_000);
    assert_eq!(clock.interpolated_duration, 0);
    assert_eq!(clock.previous_playback_status, Some(PlaybackStatus::Playing));
    assert_eq!(clock.checked_position(), Some(7_000_000));
}

#[test]
fn cue_synchronizer_reports_changes_only() {
    let mut s = CueSynchronizer::new();
    let c = cues();
    assert_eq!(s.update(Some(&c), Some(1_500_000)), Some(vec![CueIndex { cue: 0 }, CueIndex { cue: 1 }]));
    assert_eq!(s.update(Some(&c), Some(1_600_000)), None);
    assert_eq!(s.update(Some(&c), Some(3_000_000)), Some(vec![CueIndex { cue: 2 }]));
    assert_eq!(s.update(Some(&c), Some(5_000_000)), Some(vec![]));
    assert_eq!(s.get_active_indices(), vec![]);
}

#[test]
fn word_synchronizer_finds_words() {
    let mut s = WordSynchronizer::new();
    let c = words();
    assert_eq!(s.update(Some(&c), Some(1_200_000)), Some(vec![WordIndex { cue: 0, word: 1 }]));
    assert_eq!(s.get_active_indices(), vec![WordIndex { cue: 0, word: 1 }]);
    assert_eq!(s.update(None, Some(1_200_000)), Some(vec![]));
}

#[test]
fn app_synchronizer_follows_the_level() {
    let mut s = AppSynchronizer::new();
    let w = words();
    match s.update(Some(&w), Some(500_000)) {
        Some(SyncEvent::Word(v)) => assert_eq!(v, vec![WordIndex { cue: 0, word: 0 }]),
        _ => panic!("expected words"),
    }
    assert_eq!(s.mode, SynchronizerMode::Word);
    assert_eq!(s.get_active_indices(), vec![ActiveIndex::Word(WordIndex { cue: 0, word: 0 })]);
    assert_eq!(s.first_active_cue(), 0);
    let c = cues();
    match s.update(Some(&c), Some(3_500_000)) {
        Some(SyncEvent::Cue(v)) => assert_eq!(v, vec![CueIndex { cue: 2 }]),
        _ => panic!("expected cues"),
    }
    assert_eq!(s.first_active_cue(), 2);
}

#[test]
fn new_track_goes_back_to_normal_and_asks_for_documents() {
    let mut state = AppState::new();
    state.track = Some(track("Porcelana"));
    state.app_mode = AppMode::Select { cue_index: 0, selected_cues: vec![] };
    assert_eq!(state.update(PlayerEvent::TrackChanged(track("Porcelana"))), StateUpdate::ReloadDocuments);
    assert!(state.is_select_mode());
    assert_eq!(state.update(PlayerEvent::TrackChanged(track("Saoko"))), StateUpdate::ReloadDocuments);
    assert!(state.is_normal_mode());
    assert_eq!(state.track.as_ref().unwrap().title, "Saoko");
}

#[test]
fn stopped_player_asks_for_reconnection() {
    let mut state = AppState::new();
    assert_eq!(state.update(PlayerEvent::PlaybackChanged(PlaybackStatus::Playing)), StateUpdate::Nothing);
    assert_eq!(state.playback_state, PlaybackStatus::Playing);
    assert_eq!(state.update(PlayerEvent::PlaybackChanged(PlaybackStatus::Stopped)), StateUpdate::Reconnect);
    assert_eq!(state.update(PlayerEvent::Seeked(3)), StateUpdate::Nothing);
}

#[test]
fn editor_follows_player_and_ticks() {
    let mut app = editor(cues());
    assert_eq!(app.handle_player_event(PlayerEvent::Seeked(3_200_000)), StateUpdate::Nothing);
    match app.sync_to_clock() {
        Some(SyncEvent::Cue(v)) => assert_eq!(v, vec![CueIndex { cue: 2 }]),
        _ => panic!("expected cues"),
    }
    assert_eq!(app.get_first_active_cue(), Some(2));
    match app.handle_tick_event(Some(1_500_000), PlaybackStatus::Paused) {
        Ok(Some(SyncEvent::Cue(v))) => assert_eq!(v, vec![CueIndex { cue: 0 }, CueIndex { cue: 1 }]),
        _ => panic!("expected cues"),
    }
    assert_eq!(app.clock.previous_playback_status, Some(PlaybackStatus::Paused));
    match app.handle_tick_event(None, PlaybackStatus::Paused) {
        Ok(None) => {},
        _ => panic!("expected no change"),
    }
}

#[test]
fn clock_refuses_what_it_cannot_hold() {
    let mut clock = PlaybackClock::new(0);
    clock.advance(0, 1_000_000, PlaybackStatus::Playing);
    assert!(clock.sync_elapsed(1u128 << 64, 1_000_000, PlaybackStatus::Playing).is_err());
    assert_eq!((clock.last_position, clock.interpolated_duration), (1_000_000, 0));
    assert_eq!(clock.sync_elapsed(250_000, 1_000_000, PlaybackStatus::Paused), Ok(()));
    assert_eq!((clock.last_position, clock.interpolated_duration), (1_000_000, 250_000));
    assert_eq!(clock.previous_playback_status, Some(PlaybackStatus::Paused));
    assert_eq!(clock.sync_elapsed(250_000, 1_000_000, PlaybackStatus::Playing), Ok(()));
    assert_eq!(clock.interpolated_duration, 250_000);
    clock.interpolated_duration = i64::MAX - 10;
    assert!(clock.sync_elapsed(11, 1_000_000, PlaybackStatus::Playing).is_err());
    assert_eq!(clock.interpolated_duration, i64::MAX - 10);
}

#[test]
fn tick_after_elapsed_time_follows_the_clock() {
    let mut app = editor(cues());
    match app.process_tick(0, Some(1_000_000), PlaybackStatus::Playing) {
        Ok(Some(SyncEvent::Cue(v))) => assert_eq!(v, vec![CueIndex { cue: 0 }, CueIndex { cue: 1 }]),
        _ => panic!("expected cues"),
    }
    match app.process_tick(2_500_000, None, PlaybackStatus::Playing) {
        Ok(Some(SyncEvent::Cue(v))) => assert_eq!(v, vec![CueIndex { cue: 2 }]),
        _ => panic!("expected cues"),
    }
    assert_eq!(app.clock.get_position(), 3_500_000);
    assert!(app.process_tick(u128::MAX, None, PlaybackStatus::Playing).is_err());
    assert_eq!(app.clock.get_position(), 3_500_000);
}

use lyrc::app::timing::{AllTimesEdit, CurrentTimeEdit};
use lyrc::app::App;
use lyrc::config::Config;
use lyrc::cues::{Cue, Language, Line, SubtitleCues, SubtitleDocument, SubtitleMetadata};
use lyrc::keyboard::{
    edit_key_command, normal_key_command, select_key_command, KeyAction, KeyCode, KeyCommand, KeyOutcome, KeyPress,
};
use lyrc::modal::{parse_variant, Modal, ModalAction, SyncLevel};
use lyrc::mode::AppMode;
use lyrc::state::{SubtitleVariant, Track};

fn key(code: KeyCode) -> KeyPress {
    KeyPress { code, ctrl: false }
}

fn ctrl(ch: char) -> KeyPress {
    KeyPress { code: KeyCode::Char(ch), ctrl: true }
}

fn track() -> Track {
    Track {
        album: None,
        disc_number: None,
        title: "World".to_string(),
        track_number: None,
        duration: 248_000_000,
        id: None,
        genres: vec![],
        artists: vec![],
        album_artists: vec![],
        file_path: Some("/music/world.flac".to_string()),
    }
}

fn document(cues: SubtitleCues) -> SubtitleDocument {
    SubtitleDocument {
        metadata: SubtitleMetadata {
            album: None,
            title: Some("World".to_string()),
            artists: vec![],
            languages: vec![Language { code: "en".to_string() }],
            file_path: None,
        },
        cues,
    }
}

fn editor(cues: SubtitleCues) -> App {
    let mut app = App::new(&Config::default());
    app.state.track = Some(track());
    app.state.reload_subtitle_documents(vec![(SubtitleVariant::Original, document(cues))]);
    app
}

fn timed() -> SubtitleCues {
    SubtitleCues::Cue(vec![
        Cue { id: 1, start: 1_000_000, end: 2_000_000, content: "one".to_string() },
        Cue { id: 2, start: 2_000_000, end: 3_000_000, content: "two".to_string() },
    ])
}

#[test]
fn normal_keys() {
    let c = Config::default();
    assert!(matches!(normal_key_command(ctrl('c'), &c), KeyCommand::Quit));
    assert!(matches!(normal_key_command(ctrl('s'), &c), KeyCommand::Save));
    assert!(matches!(normal_key_command(key(KeyCode::Char(' ')), &c), KeyCommand::TogglePlayPause));
    assert!(matches!(normal_key_command(key(KeyCode::Left), &c), KeyCommand::SeekBy(-5_000_000)));
    assert!(matches!(normal_key_command(key(KeyCode::Right), &c), KeyCommand::SeekBy(5_000_000)));
    assert!(matches!(
        normal_key_command(key(KeyCode::Char('<')), &c),
        KeyCommand::ShiftAll(AllTimesEdit::LaterStarts(500_000))
    ));
    assert!(matches!(
        normal_key_command(key(KeyCode::Char('m')), &c),
        KeyCommand::ShiftAll(AllTimesEdit::EarlierStarts(10_000))
    ));
    assert!(matches!(normal_key_command(key(KeyCode::Enter), &c), KeyCommand::SelectMode));
    assert!(matches!(normal_key_command(key(KeyCode::Char('x')), &c), KeyCommand::Nothing));
}

#[test]
fn select_keys() {
    let c = Config::default();
    assert!(matches!(select_key_command(key(KeyCode::Char('q')), &c), KeyCommand::Quit));
    assert!(matches!(select_key_command(ctrl('s'), &c), KeyCommand::SaveAndReload));
    assert!(matches!(select_key_command(key(KeyCode::Char('D')), &c), KeyCommand::DeleteSelected));
    assert!(matches!(select_key_command(key(KeyCode::Char('d')), &c), KeyCommand::DeleteCurrent));
    assert!(matches!(
        select_key_command(key(KeyCode::Char('?')), &c),
        KeyCommand::EditCurrent(CurrentTimeEdit::LaterEnd(500_000))
    ));
    assert!(matches!(select_key_command(KeyPress { code: KeyCode::Down, ctrl: true }, &c), KeyCommand::NextHalfPage));
    assert!(matches!(select_key_command(key(KeyCode::Down), &c), KeyCommand::NextLine));
    assert!(matches!(select_key_command(key(KeyCode::Tab), &c), KeyCommand::EditMode));
}

#[test]
fn edit_keys() {
    assert!(matches!(edit_key_command(key(KeyCode::Char('x'))), KeyCommand::Type('x')));
    assert!(matches!(edit_key_command(ctrl('z')), KeyCommand::Undo));
    assert!(matches!(edit_key_command(key(KeyCode::Backspace)), KeyCommand::Erase));
    assert!(matches!(edit_key_command(key(KeyCode::Esc)), KeyCommand::EscapeEdit));
}

#[test]
fn seeking_keys_hand_back_actions() {
    let mut app = editor(timed());
    let c = Config::default();
    assert_eq!(app.handle_key(key(KeyCode::Left), &c, 20, None), Ok(KeyAction::SeekBy(-5_000_000)));
    assert_eq!(app.handle_key(key(KeyCode::Char(' ')), &c, 20, None), Ok(KeyAction::TogglePlayPause));
    assert_eq!(app.handle_key(key(KeyCode::Enter), &c, 20, None), Ok(KeyAction::Nothing));
    assert!(matches!(app.state.app_mode, AppMode::Select { cue_index: 0, .. }));
    app.handle_key(key(KeyCode::Down), &c, 20, None).unwrap();
    assert_eq!(app.handle_key(key(KeyCode::Enter), &c, 20, None), Ok(KeyAction::SeekTo(2_000_000)));
}

#[test]
fn seeking_without_times_fails() {
    let app = editor(SubtitleCues::Line(vec![Line { id: 1, content: "la".to_string() }]));
    assert_eq!(app.seek_to_selected_line(0), Err("No subtitle times".to_string()));
    let mut no_track = editor(timed());
    no_track.state.track = None;
    assert_eq!(no_track.seek_to_selected_line(0), Err("No track was found".to_string()));
    let empty = editor(SubtitleCues::Empty);
    assert_eq!(empty.seek_to_selected_line(0), Err("No subtitle cues".to_string()));
}

#[test]
fn quitting() {
    let mut app = editor(timed());
    let c = Config::default();
    assert_eq!(app.handle_key(ctrl('c'), &c, 20, None), Ok(KeyAction::Nothing));
    assert!(app.state.quit);
}

#[test]
fn save_in_normal_mode_and_reload_in_select_mode() {
    let mut app = editor(timed());
    let c = Config::default();
    assert_eq!(app.handle_key(ctrl('s'), &c, 20, None), Ok(KeyAction::Save));
    app.handle_key(key(KeyCode::Enter), &c, 20, None).unwrap();
    assert_eq!(app.handle_key(ctrl('s'), &c, 20, None), Ok(KeyAction::SaveAndReload));
}

#[test]
fn start_at_clock_sets_the_start() {
    let mut app = editor(timed());
    let c = Config::default();
    app.handle_key(key(KeyCode::Enter), &c, 20, None).unwrap();
    assert_eq!(app.handle_key(key(KeyCode::Char('c')), &c, 20, Some(1_500_000)), Ok(KeyAction::Nothing));
    match &app.state.subtitle_documents.active().unwrap().document.cues {
        SubtitleCues::Cue(v) => assert_eq!((v[0].start, v[0].end), (1_500_000, 2_000_000)),
        _ => panic!("expected timed cues"),
    }
}

#[test]
fn keys_in_a_dialog_go_to_it() {
    let mut app = editor(timed());
    let c = Config::default();
    app.state.modal = Some(Modal::Translate { input: String::new(), input_variant: None, new_variant: None, error: None });
    for ch in ['f', 'r'] {
        let r = app.handle_keyboard_event(key(KeyCode::Char(ch)), &c, 20, None);
        assert!(matches!(r, Ok(KeyOutcome::Modal(ModalAction::Nothing))));
    }
    let r = app.handle_keyboard_event(key(KeyCode::Enter), &c, 20, None);
    assert!(matches!(r, Ok(KeyOutcome::Modal(ModalAction::Nothing))));
    let r = app.handle_keyboard_event(key(KeyCode::Enter), &c, 20, None);
    match r {
        Ok(KeyOutcome::Modal(ModalAction::StartTranslation(l))) => assert_eq!(l.code, "fr"),
        _ => panic!("expected a translation to start"),
    }
}

#[test]
fn alignment_dialog_levels() {
    let mut app = editor(timed());
    app.state.modal = Some(Modal::Alignment { new_alignment: SyncLevel::Cue, error: None });
    assert!(matches!(app.handle_modal_key(key(KeyCode::Up)), ModalAction::Nothing));
    match &app.state.modal {
        Some(Modal::Alignment { new_alignment, .. }) => assert_eq!(*new_alignment, SyncLevel::Word),
        _ => panic!("expected the alignment dialog"),
    }
    assert!(matches!(app.handle_modal_key(key(KeyCode::Esc)), ModalAction::Nothing));
    assert!(app.state.modal.is_none());
}

#[test]
fn variants_typed_in_the_dialog() {
    assert!(matches!(parse_variant(&"Original".to_string()), Some(SubtitleVariant::Original)));
    match parse_variant(&"es".to_string()) {
        Some(SubtitleVariant::Translated(Language { code })) => assert_eq!(code, "es"),
        _ => panic!("expected a language"),
    }
    assert!(parse_variant(&"e".to_string()).is_none());
    assert!(parse_variant(&"spanish".to_string()).is_none());
    assert!(parse_variant(&"e5".to_string()).is_none());
}

#[test]
fn sync_levels_cycle() {
    assert_eq!(SyncLevel::Word.next_cyclic(), SyncLevel::Empty);
    assert_eq!(SyncLevel::Empty.previous_cyclic(), SyncLevel::Word);
    assert_eq!(SyncLevel::Line.rank() < SyncLevel::Cue.rank(), true);
    assert_eq!(timed().sync_level(), SyncLevel::Cue);
}

#[test]
fn undo_takes_back_a_time_key() {
    let mut app = editor(timed());
    let c = Config::default();
    app.handle_key(key(KeyCode::Enter), &c, 20, None).unwrap();
    app.handle_key(key(KeyCode::Char('<')), &c, 20, None).unwrap();
    let starts = |app: &App| match &app.state.subtitle_documents.active().unwrap().document.cues {
        SubtitleCues::Cue(v) => v.iter().map(|x| (x.id, x.start, x.end)).collect::<Vec<_>>(),
        _ => panic!("expected timed cues"),
    };
    assert_eq!(starts(&app), vec![(1, 1_500_000, 2_000_000), (2, 2_000_000, 3_000_000)]);
    app.handle_key(ctrl('z'), &c, 20, None).unwrap();
    assert_eq!(starts(&app), vec![(1, 1_000_000, 2_000_000), (2, 2_000_000, 3_000_000)]);
}

#[test]
fn undo_takes_back_a_shift_of_every_cue() {
    let mut app = editor(timed());
    let c = Config::default();
    let times = |app: &App| match &app.state.subtitle_documents.active().unwrap().document.cues {
        SubtitleCues::Cue(v) => v.iter().map(|x| (x.id, x.start, x.end)).collect::<Vec<_>>(),
        _ => panic!("expected timed cues"),
    };
    app.handle_key(key(KeyCode::Char('<')), &c, 20, None).unwrap();
    assert_eq!(times(&app), vec![(1, 1_500_000, 2_000_000), (2, 2_500_000, 3_000_000)]);
    app.handle_key(ctrl('z'), &c, 20, None).unwrap();
    assert_eq!(times(&app), vec![(1, 1_000_000, 2_000_000), (2, 2_000_000, 3_000_000)]);
}

#[test]
fn redo_makes_an_undone_time_key_again() {
    let mut app = editor(timed());
    let c = Config::default();
    let starts = |app: &App| match &app.state.subtitle_documents.active().unwrap().document.cues {
        SubtitleCues::Cue(v) => v.iter().map(|x| (x.id, x.start, x.end)).collect::<Vec<_>>(),
        _ => panic!("expected timed cues"),
    };
    app.handle_key(key(KeyCode::Enter), &c, 20, None).unwrap();
    app.handle_key(key(KeyCode::Char('<')), &c, 20, None).unwrap();
    app.handle_key(ctrl('z'), &c, 20, None).unwrap();
    assert_eq!(starts(&app), vec![(1, 1_000_000, 2_000_000), (2, 2_000_000, 3_000_000)]);
    app.handle_key(ctrl('r'), &c, 20, None).unwrap();
    assert_eq!(starts(&app), vec![(1, 1_500_000, 2_000_000), (2, 2_000_000, 3_000_000)]);
}

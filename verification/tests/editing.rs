use lyrc::app::App;
use lyrc::config::Config;
use lyrc::cues::{Cue, Language, SubtitleCues, SubtitleDocument, SubtitleMetadata};
use lyrc::history::{CueTimeChange, Edit, IndexedSubtitleCue};
use lyrc::mode::{AppMode, Cursor};
use lyrc::state::{SubtitleVariant, Track};

fn track(duration: i64) -> Track {
    Track {
        album: None,
        disc_number: None,
        title: "Porcelana".to_string(),
        track_number: None,
        duration,
        id: None,
        genres: vec![],
        artists: vec!["Rosalía".to_string()],
        album_artists: vec![],
        file_path: Some("/music/porcelana.flac".to_string()),
    }
}

fn cue(id: u128, start: i64, end: i64, text: &str) -> Cue {
    Cue { id, start, end, content: text.to_string() }
}

fn document(cues: Vec<Cue>) -> SubtitleDocument {
    SubtitleDocument {
        metadata: SubtitleMetadata {
            album: None,
            title: Some("Porcelana".to_string()),
            artists: vec!["Rosalía".to_string()],
            languages: vec![Language { code: "es".to_string() }],
            file_path: Some("/music/porcelana.lrc".to_string()),
        },
        cues: SubtitleCues::Cue(cues),
    }
}

fn editor(cues: Vec<Cue>) -> App {
    let mut app = App::new(&Config::default());
    app.state.track = Some(track(60_000_000));
    app.state.reload_subtitle_documents(vec![(SubtitleVariant::Original, document(cues))]);
    app
}

fn three_cues() -> Vec<Cue> {
    vec![
        cue(1, 0, 2_000_000, "uno"),
        cue(2, 3_000_000, 5_000_000, "dos"),
        cue(3, 6_000_000, 8_000_000, "tres"),
    ]
}

fn times(app: &App) -> Vec<(u128, i64, i64)> {
    match &app.state.subtitle_documents.active().unwrap().document.cues {
        SubtitleCues::Cue(v) => v.iter().map(|c| (c.id, c.start, c.end)).collect(),
        _ => panic!("expected timed cues"),
    }
}

fn texts(app: &App) -> Vec<String> {
    match &app.state.subtitle_documents.active().unwrap().document.cues {
        SubtitleCues::Cue(v) => v.iter().map(|c| c.content.clone()).collect(),
        _ => panic!("expected timed cues"),
    }
}

fn select_state(app: &App) -> (usize, Vec<usize>) {
    match &app.state.app_mode {
        AppMode::Select { cue_index, selected_cues } => (*cue_index, selected_cues.clone()),
        _ => panic!("expected the select mode"),
    }
}

#[test]
fn select_mode_needs_a_document() {
    let mut app = App::new(&Config::default());
    let r = app.switch_to_select_mode();
    assert_eq!(r, Err("No subtitle document found".to_string()));
    assert!(matches!(app.state.app_mode, AppMode::Normal));
}

#[test]
fn select_mode_starts_at_first_active_cue() {
    let mut app = editor(three_cues());
    assert_eq!(app.switch_to_select_mode(), Ok(()));
    assert_eq!(select_state(&app), (0, vec![]));
}

#[test]
fn next_line_moves_and_stops_at_last() {
    let mut app = editor(three_cues());
    app.switch_to_select_mode().unwrap();
    app.go_to_next_line();
    assert_eq!(select_state(&app).0, 1);
    app.go_to_next_line();
    app.go_to_next_line();
    assert_eq!(select_state(&app).0, 2);
    app.go_to_previous_line();
    assert_eq!(select_state(&app).0, 1);
}

#[test]
fn toggling_a_line_twice_restores_selection() {
    let mut app = editor(three_cues());
    app.switch_to_select_mode().unwrap();
    app.go_to_next_line();
    app.toggle_select_line();
    assert_eq!(select_state(&app), (1, vec![1]));
    app.toggle_select_line();
    assert_eq!(select_state(&app), (1, vec![]));
}

#[test]
fn toggle_all_lines_selects_every_cue() {
    let mut app = editor(three_cues());
    assert_eq!(app.toggle_select_all_lines(), Ok(()));
    assert_eq!(select_state(&app), (0, vec![0, 1, 2]));
    assert_eq!(app.toggle_select_all_lines(), Ok(()));
    assert_eq!(select_state(&app), (0, vec![]));
}

#[test]
fn toggle_all_lines_needs_a_track() {
    let mut app = editor(three_cues());
    app.state.track = None;
    assert_eq!(app.toggle_select_all_lines(), Err("No track found".to_string()));
}

#[test]
fn edit_then_select_keeps_the_current_cue() {
    let mut app = editor(three_cues());
    app.switch_to_select_mode().unwrap();
    app.go_to_next_line();
    app.toggle_select_line();
    app.switch_to_edit_mode().unwrap();
    match &app.state.app_mode {
        AppMode::Edit { cursor, selected_cues } => {
            assert_eq!(*cursor, Cursor { cue_index: 1, active_column: 3, target_column: 3 });
            assert_eq!(selected_cues.len(), 1);
            assert_eq!(selected_cues[0].index, 1);
        },
        _ => panic!("expected the edit mode"),
    }
    app.switch_to_select_mode().unwrap();
    assert_eq!(select_state(&app), (1, vec![1]));
}

#[test]
fn typing_appends_and_erasing_removes() {
    let mut app = editor(three_cues());
    app.switch_to_select_mode().unwrap();
    app.switch_to_edit_mode().unwrap();
    app.type_text(Some('!'));
    assert_eq!(texts(&app)[0], "uno!");
    app.type_text(None);
    app.type_text(None);
    assert_eq!(texts(&app)[0], "un");
}

#[test]
fn delete_current_line_removes_it() {
    let mut app = editor(three_cues());
    app.switch_to_select_mode().unwrap();
    app.go_to_next_line();
    app.delete_current_line();
    assert_eq!(times(&app), vec![(1, 0, 2_000_000), (3, 6_000_000, 8_000_000)]);
}

#[test]
fn add_after_current_copies_its_times() {
    let mut app = editor(three_cues());
    app.switch_to_select_mode().unwrap();
    app.add_cue_after_current_cue_with_id(99);
    assert_eq!(times(&app)[1], (99, 0, 2_000_000));
    assert_eq!(texts(&app)[1], "");
    assert_eq!(times(&app).len(), 4);
    assert_eq!(select_state(&app).0, 0);
}

#[test]
fn add_before_current_moves_the_current_cue_down() {
    let mut app = editor(three_cues());
    app.switch_to_select_mode().unwrap();
    app.go_to_next_line();
    app.add_cue_before_current_cue_with_id(77);
    assert_eq!(times(&app)[1], (77, 3_000_000, 5_000_000));
    assert_eq!(times(&app)[2].0, 2);
    assert_eq!(select_state(&app).0, 2);
}

#[test]
fn add_with_random_identity_is_version_four() {
    let mut app = editor(three_cues());
    app.switch_to_select_mode().unwrap();
    app.add_cue_after_current_cue();
    let id = times(&app)[1].0;
    assert_eq!((id >> 76) & 0xf, 4);
    assert_eq!((id >> 62) & 0x3, 2);
}

#[test]
fn delete_then_insert_restores_cues() {
    let mut app = editor(three_cues());
    app.switch_to_select_mode().unwrap();
    let removed = vec![IndexedSubtitleCue {
        index: 1,
        subtitle_cue: SubtitleCues::Cue(vec![cue(2, 3_000_000, 5_000_000, "dos")]),
    }];
    let again = vec![IndexedSubtitleCue {
        index: 1,
        subtitle_cue: SubtitleCues::Cue(vec![cue(2, 3_000_000, 5_000_000, "dos")]),
    }];
    app.delete_cues(removed);
    assert_eq!(times(&app), vec![(1, 0, 2_000_000), (3, 6_000_000, 8_000_000)]);
    app.insert_cues(again);
    assert_eq!(times(&app), vec![(1, 0, 2_000_000), (2, 3_000_000, 5_000_000), (3, 6_000_000, 8_000_000)]);
    assert_eq!(texts(&app), vec!["uno", "dos", "tres"]);
}

#[test]
fn undo_and_redo_a_recorded_deletion() {
    let mut app = editor(three_cues());
    app.switch_to_select_mode().unwrap();
    app.go_to_next_line();
    app.toggle_select_line();
    app.delete_selected_recorded();
    assert_eq!(times(&app), vec![(1, 0, 2_000_000), (3, 6_000_000, 8_000_000)]);
    assert!(app.state.subtitle_documents.active().unwrap().unsaved_changes);
    app.undo();
    assert_eq!(times(&app), vec![(1, 0, 2_000_000), (2, 3_000_000, 5_000_000), (3, 6_000_000, 8_000_000)]);
    app.redo();
    assert_eq!(times(&app), vec![(1, 0, 2_000_000), (3, 6_000_000, 8_000_000)]);
}

#[test]
fn time_edits_need_the_select_or_edit_mode() {
    let mut app = editor(three_cues());
    assert_eq!(app.set_current_cue_start_time(1_000_000), Err("Cannot be in normal mode".to_string()));
    assert_eq!(times(&app)[0], (1, 0, 2_000_000));
}

#[test]
fn later_start_moves_cue_past_following_ones() {
    let mut app = editor(three_cues());
    app.switch_to_select_mode().unwrap();
    assert_eq!(app.set_current_cue_start_time(4_000_000), Ok(()));
    assert_eq!(
        times(&app),
        vec![(2, 3_000_000, 5_000_000), (1, 4_000_000, 6_000_000), (3, 6_000_000, 8_000_000)],
    );
    assert_eq!(select_state(&app).0, 1);
}

#[test]
fn end_edit_keeps_order() {
    let mut app = editor(three_cues());
    app.switch_to_select_mode().unwrap();
    app.go_to_next_line();
    assert_eq!(app.increase_current_cue_end_time(500_000), Ok(()));
    assert_eq!(times(&app)[1], (2, 3_000_000, 5_500_000));
    assert_eq!(app.decrease_current_cue_end_time(1_000_000), Ok(()));
    assert_eq!(times(&app)[1], (2, 3_000_000, 4_500_000));
}

#[test]
fn all_starts_move_later_within_the_track() {
    let mut app = editor(three_cues());
    app.increase_all_cue_start_times(1_000_000);
    assert_eq!(
        times(&app),
        vec![(1, 1_000_000, 2_000_000), (2, 4_000_000, 5_000_000), (3, 7_000_000, 8_000_000)],
    );
}

#[test]
fn all_ends_move_earlier_not_below_zero() {
    let mut app = editor(three_cues());
    app.decrease_all_cue_end_times(2_500_000);
    assert_eq!(
        times(&app),
        vec![(1, 0, 2_000_000), (2, 2_500_000, 2_500_000), (3, 5_500_000, 5_500_000)],
    );
}

#[test]
fn adjusting_all_starts_sorts_cues() {
    let mut app = editor(vec![cue(1, 0, 1_000_000, "a"), cue(2, 500_000, 3_000_000, "b")]);
    app.adjust_all_cues_start_forwards(800_000);
    assert_eq!(times(&app), vec![(1, 800_000, 1_000_000), (2, 1_300_000, 3_000_000)]);
}

#[test]
fn mode_descriptions() {
    assert_eq!(AppMode::Normal.describe(), "normal");
    assert_eq!(AppMode::Select { cue_index: 0, selected_cues: vec![] }.describe(), "select cue: 0");
    assert_eq!(AppMode::Select { cue_index: 1024, selected_cues: vec![] }.describe(), "select cue: 1024");
    assert_eq!(AppMode::Select { cue_index: 12, selected_cues: vec![] }.describe(), "select cue: 12");
    let cursor = Cursor { cue_index: 3, active_column: 7, target_column: 7 };
    assert_eq!(AppMode::Edit { cursor, selected_cues: vec![] }.describe(), "cursor index: 3, active_column: 7");
}

#[test]
fn time_change_then_its_inverse() {
    let mut app = editor(three_cues());
    let change = CueTimeChange {
        id: 1,
        old_index: 0,
        new_index: 2,
        old_start: 0,
        old_end: 2_000_000,
        new_start: 7_000_000,
        new_end: 9_000_000,
    };
    app.set_times(vec![change]);
    assert_eq!(
        times(&app),
        vec![(2, 3_000_000, 5_000_000), (3, 6_000_000, 8_000_000), (1, 7_000_000, 9_000_000)],
    );
    app.set_times(vec![change.inverse()]);
    assert_eq!(times(&app), vec![(1, 0, 2_000_000), (2, 3_000_000, 5_000_000), (3, 6_000_000, 8_000_000)]);
}

#[test]
fn undo_takes_back_typing() {
    let mut app = editor(three_cues());
    app.switch_to_select_mode().unwrap();
    app.go_to_next_line();
    app.switch_to_edit_mode().unwrap();
    app.type_text(Some('s'));
    assert_eq!(texts(&app)[1], "doss");
    app.undo();
    assert_eq!(texts(&app), vec!["uno", "dos", "tres"]);
}

#[test]
fn later_then_earlier_starts_give_the_cues_back() {
    let mut app = editor(three_cues());
    app.increase_all_cue_start_times(1_500_000);
    assert_eq!(
        times(&app),
        vec![(1, 1_500_000, 2_000_000), (2, 4_500_000, 5_000_000), (3, 7_500_000, 8_000_000)],
    );
    app.decrease_all_cue_start_times(1_500_000);
    assert_eq!(times(&app), vec![(1, 0, 2_000_000), (2, 3_000_000, 5_000_000), (3, 6_000_000, 8_000_000)]);
}

#[test]
fn undo_takes_back_a_recorded_insertion_and_redo_makes_it_again() {
    let mut app = editor(vec![cue(1, 0, 2_000_000, "uno"), cue(3, 6_000_000, 8_000_000, "tres")]);
    let item = || {
        vec![IndexedSubtitleCue {
            index: 1,
            subtitle_cue: SubtitleCues::Cue(vec![cue(2, 3_000_000, 5_000_000, "dos")]),
        }]
    };
    app.insert_cues(item());
    assert!(app.push_to_history(Edit::InsertCue { cues: item() }));
    assert_eq!(times(&app), vec![(1, 0, 2_000_000), (2, 3_000_000, 5_000_000), (3, 6_000_000, 8_000_000)]);
    app.undo();
    assert_eq!(times(&app), vec![(1, 0, 2_000_000), (3, 6_000_000, 8_000_000)]);
    app.redo();
    assert_eq!(times(&app), vec![(1, 0, 2_000_000), (2, 3_000_000, 5_000_000), (3, 6_000_000, 8_000_000)]);
    assert_eq!(texts(&app), vec!["uno", "dos", "tres"]);
}

#[test]
fn delete_then_insert_in_select_mode_moves_the_selection_back() {
    let mut app = editor(three_cues());
    app.switch_to_select_mode().unwrap();
    app.go_to_next_line();
    app.go_to_next_line();
    app.toggle_select_line();
    assert_eq!(select_state(&app).1, vec![2]);
    let item = || {
        vec![IndexedSubtitleCue {
            index: 0,
            subtitle_cue: SubtitleCues::Cue(vec![cue(1, 0, 2_000_000, "uno")]),
        }]
    };
    app.delete_cues(item());
    assert_eq!(select_state(&app).1, vec![1]);
    app.insert_cues(item());
    assert_eq!(times(&app), vec![(1, 0, 2_000_000), (2, 3_000_000, 5_000_000), (3, 6_000_000, 8_000_000)]);
    assert_eq!(select_state(&app).1, vec![2]);
}

use std::collections::BTreeSet;

use lyrc::mode::Cursor;
use lyrc::synchronizer::{ActiveIndex, AppSynchronizer, CueIndex, SynchronizerMode, WordIndex};

#[test]
fn new_cursor_stands_at_end_of_line() {
    assert_eq!(Cursor::new(4, 11), Cursor { cue_index: 4, active_column: 11, target_column: 11 });
}

#[test]
fn left_and_right_stop_at_line_ends() {
    let mut c = Cursor::new(0, 1);
    c.move_left();
    c.move_left();
    assert_eq!(c, Cursor { cue_index: 0, active_column: 0, target_column: 0 });
    c.move_right(2);
    c.move_right(2);
    c.move_right(2);
    assert_eq!(c, Cursor { cue_index: 0, active_column: 2, target_column: 2 });
}

#[test]
fn up_and_down_keep_the_target_column() {
    let mut c = Cursor::new(1, 8);
    c.move_up(3);
    assert_eq!(c, Cursor { cue_index: 0, active_column: 3, target_column: 8 });
    c.move_up(20);
    assert_eq!(c, Cursor { cue_index: 0, active_column: 8, target_column: 8 });
    c.move_down(5, 2);
    assert_eq!(c, Cursor { cue_index: 1, active_column: 5, target_column: 8 });
    c.move_down(10, 2);
    assert_eq!(c, Cursor { cue_index: 1, active_column: 8, target_column: 8 });
}

#[test]
fn jumps_go_to_nearest_selected_cue() {
    let selected: BTreeSet<usize> = [1, 4, 9].into_iter().collect();
    let mut c = Cursor::new(5, 2);
    c.jump_up(7, &selected);
    assert_eq!(c.cue_index, 4);
    c.jump_down(7, &selected);
    assert_eq!(c.cue_index, 9);
    c.jump_down(7, &selected);
    assert_eq!(c.cue_index, 9);
    let mut d = Cursor::new(1, 2);
    d.jump_up(7, &selected);
    assert_eq!(d.cue_index, 1);
    assert_eq!(d.active_column, 2);
}

#[test]
fn active_indices_point_into_cues() {
    assert_eq!(ActiveIndex::Word(WordIndex { cue: 3, word: 1 }).cue_index(), CueIndex { cue: 3 });
    assert_eq!(ActiveIndex::Cue(CueIndex { cue: 2 }).cue_index(), CueIndex { cue: 2 });
    assert_eq!(ActiveIndex::default(), ActiveIndex::Cue(CueIndex { cue: 0 }));
    let s = AppSynchronizer::new();
    assert_eq!(s.mode, SynchronizerMode::Cue);
    assert_eq!(s.get_active_indices(), vec![]);
    assert_eq!(s.first_active_cue(), 0);
}

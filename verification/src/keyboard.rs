//! What each key does in each mode: the key is read as a command, and the
//! command is carried out on the editor; what needs the world outside (the
//! player, the disk, the network) is handed back as an action.

use vstd::prelude::*;

use crate::app::deletion::cues_len;
use crate::app::navigation::{line_len, sat_sub};
use crate::app::timing::{result_view, AllTimesEdit, CurrentTimeEdit};
use crate::app::App;
use crate::config::Config;
use crate::cues::{is_random_uuid, CuesView, SubtitleCues};
use crate::mode::{min_nat, AppMode, Cursor, ModeView};
use crate::state::{AppStateView, VariantView};

verus! {

/// A key, as the front end reads it.
#[derive(Clone, Copy, PartialEq, Eq, Structural, Debug)]
pub enum KeyCode {
    Char(char),
    Esc,
    Enter,
    Tab,
    Up,
    Down,
    Left,
    Right,
    Backspace,
    Other,
}

/// A key pressed, with or without the control modifier.
#[derive(Clone, Copy, PartialEq, Eq, Structural, Debug)]
pub struct KeyPress {
    pub code: KeyCode,
    pub ctrl: bool,
}

/// What a key asks the editor to do.
#[derive(Clone, Copy, PartialEq, Eq, Structural)]
pub enum KeyCommand {
    Nothing,
    Quit,
    Save,
    SaveAndReload,
    Undo,
    Redo,
    TogglePlayPause,
    SeekBy(i64),
    SeekToCurrent,
    PreviousLine,
    NextLine,
    PreviousHalfPage,
    NextHalfPage,
    ToggleSelectAll,
    ToggleSelectLine,
    SelectMode,
    EditMode,
    NormalMode,
    ShiftAll(AllTimesEdit),
    EditCurrent(CurrentTimeEdit),
    StartAtClock,
    EndAtClock,
    DeleteSelected,
    DeleteCurrent,
    AddBefore,
    AddAfter,
    AddBeforeSelected,
    AddAfterSelected,
    StartAlignment,
    DownloadLyrics,
    EscapeNormal,
    EscapeSelect,
    EscapeEdit,
    CursorLeft,
    CursorRight,
    CursorUp,
    CursorDown,
    Type(char),
    Erase,
}

/// What the front end does next, outside the editor's memory.
#[derive(Clone, Copy, PartialEq, Eq, Structural, Debug)]
pub enum KeyAction {
    Nothing,
    TogglePlayPause,
    /// Seek by this many microseconds.
    SeekBy(i64),
    /// Seek to this position, in microseconds.
    SeekTo(i64),
    /// Save the active document (then mark it saved).
    Save,
    /// Save the active document, then load the documents again.
    SaveAndReload,
    /// Load the documents again, dropping unsaved changes.
    Reload,
    /// Start aligning the active document.
    StartAlignment,
    /// Download lyrics for the track.
    DownloadLyrics,
}

/// The command of a key in the normal mode.
pub open spec fn normal_command(key: KeyPress, c: Config) -> KeyCommand {
    match key.code {
        KeyCode::Esc => KeyCommand::EscapeNormal,
        KeyCode::Char(ch) => if key.ctrl && ch == 'c' {
            KeyCommand::Quit
        } else if key.ctrl && ch == 's' {
            KeyCommand::Save
        } else if key.ctrl && ch == 'z' {
            KeyCommand::Undo
        } else if key.ctrl && ch == 'r' {
            KeyCommand::Redo
        } else if ch == ' ' {
            KeyCommand::TogglePlayPause
        } else if ch == 'k' {
            KeyCommand::PreviousLine
        } else if ch == 'j' {
            KeyCommand::NextLine
        } else if ch == 'h' {
            KeyCommand::ToggleSelectAll
        } else if ch == 'm' {
            KeyCommand::ShiftAll(AllTimesEdit::EarlierStarts(c.backwards_cue_increment_small))
        } else if ch == ',' {
            KeyCommand::ShiftAll(AllTimesEdit::LaterStarts(c.forwards_cue_increment_small))
        } else if ch == '.' {
            KeyCommand::ShiftAll(AllTimesEdit::EarlierEnds(c.backwards_cue_increment_small))
        } else if ch == '/' {
            KeyCommand::ShiftAll(AllTimesEdit::LaterEnds(c.forwards_cue_increment_small))
        } else if ch == 'M' {
            KeyCommand::ShiftAll(AllTimesEdit::EarlierStarts(c.backwards_cue_increment_large))
        } else if ch == '<' {
            KeyCommand::ShiftAll(AllTimesEdit::LaterStarts(c.forwards_cue_increment_large))
        } else if ch == '>' {
            KeyCommand::ShiftAll(AllTimesEdit::EarlierEnds(c.backwards_cue_increment_large))
        } else if ch == '?' {
            KeyCommand::ShiftAll(AllTimesEdit::LaterEnds(c.forwards_cue_increment_large))
        } else if ch == 'a' {
            KeyCommand::StartAlignment
        } else if ch == 'd' {
            KeyCommand::DownloadLyrics
        } else {
            KeyCommand::Nothing
        },
        KeyCode::Left => KeyCommand::SeekBy(c.rewind_duration),
        KeyCode::Right => KeyCommand::SeekBy(c.fast_forward_duration),
        KeyCode::Up => KeyCommand::PreviousLine,
        KeyCode::Down => KeyCommand::NextLine,
        KeyCode::Enter => KeyCommand::SelectMode,
        KeyCode::Tab => KeyCommand::SelectMode,
        _ => KeyCommand::Nothing,
    }
}

/// The command of a key in the select mode.
pub open spec fn select_command(key: KeyPress, c: Config) -> KeyCommand {
    match key.code {
        KeyCode::Char(ch) => if ch == 'q' {
            KeyCommand::Quit
        } else if key.ctrl && ch == 'c' {
            KeyCommand::Quit
        } else if key.ctrl && ch == 's' {
            KeyCommand::SaveAndReload
        } else if key.ctrl && ch == 'z' {
            KeyCommand::Undo
        } else if key.ctrl && ch == 'r' {
            KeyCommand::Redo
        } else if ch == ' ' {
            KeyCommand::TogglePlayPause
        } else if ch == 'H' {
            KeyCommand::ToggleSelectAll
        } else if ch == 'h' {
            KeyCommand::ToggleSelectLine
        } else if ch == 'D' {
            KeyCommand::DeleteSelected
        } else if ch == 'd' {
            KeyCommand::DeleteCurrent
        } else if ch == 'k' {
            KeyCommand::AddBefore
        } else if ch == 'j' {
            KeyCommand::AddAfter
        } else if ch == 'o' {
            KeyCommand::AddBeforeSelected
        } else if ch == 'i' {
            KeyCommand::AddAfterSelected
        } else if ch == 'm' {
            KeyCommand::EditCurrent(CurrentTimeEdit::EarlierStart(c.backwards_cue_increment_small))
        } else if ch == ',' {
            KeyCommand::EditCurrent(CurrentTimeEdit::LaterStart(c.forwards_cue_increment_small))
        } else if ch == '.' {
            KeyCommand::EditCurrent(CurrentTimeEdit::EarlierEnd(c.backwards_cue_increment_small))
        } else if ch == '/' {
            KeyCommand::EditCurrent(CurrentTimeEdit::LaterEnd(c.forwards_cue_increment_small))
        } else if ch == 'M' {
            KeyCommand::EditCurrent(CurrentTimeEdit::EarlierStart(c.backwards_cue_increment_large))
        } else if ch == '<' {
            KeyCommand::EditCurrent(CurrentTimeEdit::LaterStart(c.forwards_cue_increment_large))
        } else if ch == '>' {
            KeyCommand::EditCurrent(CurrentTimeEdit::EarlierEnd(c.backwards_cue_increment_large))
        } else if ch == '?' {
            KeyCommand::EditCurrent(CurrentTimeEdit::LaterEnd(c.forwards_cue_increment_large))
        } else if ch == 'c' {
            KeyCommand::StartAtClock
        } else if ch == 'C' {
            KeyCommand::EndAtClock
        } else {
            KeyCommand::Nothing
        },
        KeyCode::Esc => KeyCommand::EscapeSelect,
        KeyCode::Tab => KeyCommand::EditMode,
        KeyCode::Enter => KeyCommand::SeekToCurrent,
        KeyCode::Left => KeyCommand::SeekBy(c.rewind_duration),
        KeyCode::Right => KeyCommand::SeekBy(c.fast_forward_duration),
        KeyCode::Up => if key.ctrl { KeyCommand::PreviousHalfPage } else { KeyCommand::PreviousLine },
        KeyCode::Down => if key.ctrl { KeyCommand::NextHalfPage } else { KeyCommand::NextLine },
        _ => KeyCommand::Nothing,
    }
}

/// The command of a key in the edit mode.
pub open spec fn edit_command(key: KeyPress) -> KeyCommand {
    match key.code {
        KeyCode::Char(ch) => if key.ctrl && ch == 'c' {
            KeyCommand::Quit
        } else if key.ctrl && ch == 's' {
            KeyCommand::SaveAndReload
        } else if key.ctrl && ch == 'z' {
            KeyCommand::Undo
        } else if key.ctrl && ch == 'r' {
            KeyCommand::Redo
        } else {
            KeyCommand::Type(ch)
        },
        KeyCode::Esc => KeyCommand::EscapeEdit,
        KeyCode::Tab => KeyCommand::NormalMode,
        KeyCode::Enter => KeyCommand::SelectMode,
        KeyCode::Left => KeyCommand::CursorLeft,
        KeyCode::Right => KeyCommand::CursorRight,
        KeyCode::Up => KeyCommand::CursorUp,
        KeyCode::Down => KeyCommand::CursorDown,
        KeyCode::Backspace => KeyCommand::Erase,
        _ => KeyCommand::Nothing,
    }
}

/// The command of a key in the normal mode.
pub fn normal_key_command(key: KeyPress, c: &Config) -> (r: KeyCommand)
    ensures
        r == normal_command(key, *c),
{
    match key.code {
        KeyCode::Esc => KeyCommand::EscapeNormal,
        KeyCode::Char(ch) => if key.ctrl && ch == 'c' {
            KeyCommand::Quit
        } else if key.ctrl && ch == 's' {
            KeyCommand::Save
        } else if key.ctrl && ch == 'z' {
            KeyCommand::Undo
        } else if key.ctrl && ch == 'r' {
            KeyCommand::Redo
        } else if ch == ' ' {
            KeyCommand::TogglePlayPause
        } else if ch == 'k' {
            KeyCommand::PreviousLine
        } else if ch == 'j' {
            KeyCommand::NextLine
        } else if ch == 'h' {
            KeyCommand::ToggleSelectAll
        } else if ch == 'm' {
            KeyCommand::ShiftAll(AllTimesEdit::EarlierStarts(c.backwards_cue_increment_small))
        } else if ch == ',' {
            KeyCommand::ShiftAll(AllTimesEdit::LaterStarts(c.forwards_cue_increment_small))
        } else if ch == '.' {
            KeyCommand::ShiftAll(AllTimesEdit::EarlierEnds(c.backwards_cue_increment_small))
        } else if ch == '/' {
            KeyCommand::ShiftAll(AllTimesEdit::LaterEnds(c.forwards_cue_increment_small))
        } else if ch == 'M' {
            KeyCommand::ShiftAll(AllTimesEdit::EarlierStarts(c.backwards_cue_increment_large))
        } else if ch == '<' {
            KeyCommand::ShiftAll(AllTimesEdit::LaterStarts(c.forwards_cue_increment_large))
        } else if ch == '>' {
            KeyCommand::ShiftAll(AllTimesEdit::EarlierEnds(c.backwards_cue_increment_large))
        } else if ch == '?' {
            KeyCommand::ShiftAll(AllTimesEdit::LaterEnds(c.forwards_cue_increment_large))
        } else if ch == 'a' {
            KeyCommand::StartAlignment
        } else if ch == 'd' {
            KeyCommand::DownloadLyrics
        } else {
            KeyCommand::Nothing
        },
        KeyCode::Left => KeyCommand::SeekBy(c.rewind_duration),
        KeyCode::Right => KeyCommand::SeekBy(c.fast_forward_duration),
        KeyCode::Up => KeyCommand::PreviousLine,
        KeyCode::Down => KeyCommand::NextLine,
        KeyCode::Enter => KeyCommand::SelectMode,
        KeyCode::Tab => KeyCommand::SelectMode,
        _ => KeyCommand::Nothing,
    }
}

/// The command of a key in the select mode.
pub fn select_key_command(key: KeyPress, c: &Config) -> (r: KeyCommand)
    ensures
        r == select_command(key, *c),
{
    match key.code {
        KeyCode::Char(ch) => if ch == 'q' {
            KeyCommand::Quit
        } else if key.ctrl && ch == 'c' {
            KeyCommand::Quit
        } else if key.ctrl && ch == 's' {
            KeyCommand::SaveAndReload
        } else if key.ctrl && ch == 'z' {
            KeyCommand::Undo
        } else if key.ctrl && ch == 'r' {
            KeyCommand::Redo
        } else if ch == ' ' {
            KeyCommand::TogglePlayPause
        } else if ch == 'H' {
            KeyCommand::ToggleSelectAll
        } else if ch == 'h' {
            KeyCommand::ToggleSelectLine
        } else if ch == 'D' {
            KeyCommand::DeleteSelected
        } else if ch == 'd' {
            KeyCommand::DeleteCurrent
        } else if ch == 'k' {
            KeyCommand::AddBefore
        } else if ch == 'j' {
            KeyCommand::AddAfter
        } else if ch == 'o' {
            KeyCommand::AddBeforeSelected
        } else if ch == 'i' {
            KeyCommand::AddAfterSelected
        } else if ch == 'm' {
            KeyCommand::EditCurrent(CurrentTimeEdit::EarlierStart(c.backwards_cue_increment_small))
        } else if ch == ',' {
            KeyCommand::EditCurrent(CurrentTimeEdit::LaterStart(c.forwards_cue_increment_small))
        } else if ch == '.' {
            KeyCommand::EditCurrent(CurrentTimeEdit::EarlierEnd(c.backwards_cue_increment_small))
        } else if ch == '/' {
            KeyCommand::EditCurrent(CurrentTimeEdit::LaterEnd(c.forwards_cue_increment_small))
        } else if ch == 'M' {
            KeyCommand::EditCurrent(CurrentTimeEdit::EarlierStart(c.backwards_cue_increment_large))
        } else if ch == '<' {
            KeyCommand::EditCurrent(CurrentTimeEdit::LaterStart(c.forwards_cue_increment_large))
        } else if ch == '>' {
            KeyCommand::EditCurrent(CurrentTimeEdit::EarlierEnd(c.backwards_cue_increment_large))
        } else if ch == '?' {
            KeyCommand::EditCurrent(CurrentTimeEdit::LaterEnd(c.forwards_cue_increment_large))
        } else if ch == 'c' {
            KeyCommand::StartAtClock
        } else if ch == 'C' {
            KeyCommand::EndAtClock
        } else {
            KeyCommand::Nothing
        },
        KeyCode::Esc => KeyCommand::EscapeSelect,
        KeyCode::Tab => KeyCommand::EditMode,
        KeyCode::Enter => KeyCommand::SeekToCurrent,
        KeyCode::Left => KeyCommand::SeekBy(c.rewind_duration),
        KeyCode::Right => KeyCommand::SeekBy(c.fast_forward_duration),
        KeyCode::Up => if key.ctrl { KeyCommand::PreviousHalfPage } else { KeyCommand::PreviousLine },
        KeyCode::Down => if key.ctrl { KeyCommand::NextHalfPage } else { KeyCommand::NextLine },
        _ => KeyCommand::Nothing,
    }
}

/// The command of a key in the edit mode.
pub fn edit_key_command(key: KeyPress) -> (r: KeyCommand)
    ensures
        r == edit_command(key),
{
    match key.code {
        KeyCode::Char(ch) => if key.ctrl && ch == 'c' {
            KeyCommand::Quit
        } else if key.ctrl && ch == 's' {
            KeyCommand::SaveAndReload
        } else if key.ctrl && ch == 'z' {
            KeyCommand::Undo
        } else if key.ctrl && ch == 'r' {
            KeyCommand::Redo
        } else {
            KeyCommand::Type(ch)
        },
        KeyCode::Esc => KeyCommand::EscapeEdit,
        KeyCode::Tab => KeyCommand::NormalMode,
        KeyCode::Enter => KeyCommand::SelectMode,
        KeyCode::Left => KeyCommand::CursorLeft,
        KeyCode::Right => KeyCommand::CursorRight,
        KeyCode::Up => KeyCommand::CursorUp,
        KeyCode::Down => KeyCommand::CursorDown,
        KeyCode::Backspace => KeyCommand::Erase,
        _ => KeyCommand::Nothing,
    }
}

// ---------------------------------------------------------------------------
// Carrying commands out.

/// The state with the quit flag set.
pub open spec fn quit_state(s: AppStateView) -> AppStateView {
    AppStateView { quit: true, ..s }
}

/// An editor result, as the result of a key.
pub open spec fn as_key_result(r: Result<(), Seq<char>>) -> Result<KeyAction, Seq<char>> {
    match r {
        Ok(()) => Ok(KeyAction::Nothing),
        Err(m) => Err(m),
    }
}

/// The result of a key, as plain values.
pub open spec fn key_result_view(r: Result<KeyAction, String>) -> Result<KeyAction, Seq<char>> {
    match r {
        Ok(a) => Ok(a),
        Err(m) => Err(m@),
    }
}

/// Where seeking to cue `i` goes: its start, where the track is known and
/// the document has times.
pub open spec fn seek_result(s: AppStateView, i: usize) -> Result<i64, Seq<char>> {
    if s.track is None {
        Err("No track was found"@)
    } else {
        match s.active_cues() {
            None => Err("No subtitle_document was found"@),
            Some(CuesView::Word(q)) => Ok(q[i as int].start),
            Some(CuesView::Cue(q)) => Ok(q[i as int].start),
            Some(CuesView::Line(_)) => Err("No subtitle times"@),
            Some(CuesView::Empty) => Err("No subtitle cues"@),
        }
    }
}

/// The cursor of the edit mode once moved by the command.
pub open spec fn moved_cursor(c: CuesView, cursor: Cursor, cmd: KeyCommand) -> Cursor {
    match cmd {
        KeyCommand::CursorLeft => {
            let a = sat_sub(cursor.active_column, 1);
            Cursor { active_column: a, target_column: a, ..cursor }
        },
        KeyCommand::CursorRight => {
            let a = min_nat(cursor.active_column + 1, line_len(c, cursor.cue_index) as int) as usize;
            Cursor { active_column: a, target_column: a, ..cursor }
        },
        KeyCommand::CursorUp => cursor.up_to(line_len(c, sat_sub(cursor.cue_index, 1))),
        KeyCommand::CursorDown => {
            let n = cues_len(c);
            let up = if cursor.cue_index < usize::MAX { (cursor.cue_index + 1) as usize } else { cursor.cue_index };
            let ni = min_nat(up as int, sat_sub(n as usize, 1) as int) as usize;
            cursor.down_to(line_len(c, ni), n as usize)
        },
        _ => cursor,
    }
}

/// The state once the cursor of the edit mode is moved (no change outside
/// the edit mode or without an active document).
pub open spec fn after_cursor_move(s: AppStateView, cmd: KeyCommand) -> AppStateView {
    match (s.active_cues(), s.mode) {
        (Some(c), ModeView::Edit { cursor, selected_cues }) => s.with_mode(ModeView::Edit {
            cursor: moved_cursor(c, cursor, cmd),
            selected_cues,
        }),
        _ => s,
    }
}

/// Carrying out `cmd` may take `s` to `t` with result `r` (`first`: the
/// first active cue; `lines`: lines per page; `clock`: playback position).
pub open spec fn performed(
    s: AppStateView,
    t: AppStateView,
    r: Result<KeyAction, Seq<char>>,
    cmd: KeyCommand,
    first: usize,
    lines: usize,
    clock: Option<i64>,
) -> bool {
    match cmd {
        KeyCommand::Nothing => t == s && r == Ok::<KeyAction, Seq<char>>(KeyAction::Nothing),
        KeyCommand::Quit => t == quit_state(s) && r == Ok::<KeyAction, Seq<char>>(KeyAction::Nothing),
        KeyCommand::Save => t == s && r == Ok::<KeyAction, Seq<char>>(
            if s.active_doc() is Some { KeyAction::Save } else { KeyAction::Nothing },
        ),
        KeyCommand::SaveAndReload => t == s && r == Ok::<KeyAction, Seq<char>>(
            if s.active_doc() is Some { KeyAction::SaveAndReload } else { KeyAction::Nothing },
        ),
        KeyCommand::Undo => t == s.after_undo() && r == Ok::<KeyAction, Seq<char>>(KeyAction::Nothing),
        KeyCommand::Redo => t == s.after_redo() && r == Ok::<KeyAction, Seq<char>>(KeyAction::Nothing),
        KeyCommand::TogglePlayPause => t == s && r == Ok::<KeyAction, Seq<char>>(KeyAction::TogglePlayPause),
        KeyCommand::SeekBy(d) => t == s && r == Ok::<KeyAction, Seq<char>>(KeyAction::SeekBy(d)),
        KeyCommand::SeekToCurrent => t == s && r == match seek_result(s, s.current_index()) {
            Ok(p) => Ok::<KeyAction, Seq<char>>(KeyAction::SeekTo(p)),
            Err(m) => Err(m),
        },
        KeyCommand::PreviousLine => t == s.after_previous_line(first) && r == Ok::<KeyAction, Seq<char>>(KeyAction::Nothing),
        KeyCommand::NextLine => t == s.after_next_line(first) && r == Ok::<KeyAction, Seq<char>>(KeyAction::Nothing),
        KeyCommand::PreviousHalfPage => t == s.after_previous_half_page(first, lines) && r == Ok::<KeyAction, Seq<char>>(KeyAction::Nothing),
        KeyCommand::NextHalfPage => t == s.after_next_half_page(first, lines) && r == Ok::<KeyAction, Seq<char>>(KeyAction::Nothing),
        KeyCommand::ToggleSelectAll => t == s.after_toggle_select_all_lines(first) && r == as_key_result(s.toggle_all_result()),
        KeyCommand::ToggleSelectLine => t == s.after_toggle_select_line() && r == Ok::<KeyAction, Seq<char>>(KeyAction::Nothing),
        KeyCommand::SelectMode => t == s.after_switch_to_select(first) && r == as_key_result(s.switch_result()),
        KeyCommand::EditMode => t == s.after_switch_to_edit(first) && r == as_key_result(s.switch_result()),
        KeyCommand::NormalMode => t == s.with_mode(ModeView::Normal) && r == Ok::<KeyAction, Seq<char>>(KeyAction::Nothing),
        KeyCommand::ShiftAll(e) => t == s.after_shift_all_recorded(e) && r == Ok::<KeyAction, Seq<char>>(KeyAction::Nothing),
        KeyCommand::EditCurrent(e) => t == s.after_edit_current_recorded(e) && r == as_key_result(s.time_edit_result(e)),
        KeyCommand::StartAtClock => match clock {
            Some(p) => t == s.after_edit_current_recorded(CurrentTimeEdit::SetStart(p))
                && r == as_key_result(s.time_edit_result(CurrentTimeEdit::SetStart(p))),
            None => t == s && r == Ok::<KeyAction, Seq<char>>(KeyAction::Nothing),
        },
        KeyCommand::EndAtClock => match clock {
            Some(p) => t == s.after_edit_current_recorded(CurrentTimeEdit::SetEnd(p))
                && r == as_key_result(s.time_edit_result(CurrentTimeEdit::SetEnd(p))),
            None => t == s && r == Ok::<KeyAction, Seq<char>>(KeyAction::Nothing),
        },
        KeyCommand::DeleteSelected => t == s.after_delete_selected_recorded() && r == Ok::<KeyAction, Seq<char>>(KeyAction::Nothing),
        KeyCommand::DeleteCurrent => t == s.after_delete_current_line() && r == Ok::<KeyAction, Seq<char>>(KeyAction::Nothing),
        KeyCommand::AddBefore => r == Ok::<KeyAction, Seq<char>>(KeyAction::Nothing) && exists|id: u128|
            is_random_uuid(id) && t == s.after_add_cue_before_current(id),
        KeyCommand::AddAfter => r == Ok::<KeyAction, Seq<char>>(KeyAction::Nothing) && exists|id: u128|
            is_random_uuid(id) && t == s.after_add_cue_after_current(id),
        KeyCommand::AddBeforeSelected | KeyCommand::AddAfterSelected => r == Ok::<KeyAction, Seq<char>>(KeyAction::Nothing)
            && exists|ids: Seq<u128>| ids.len() == s.selected_count()
                && (forall|k: int| 0 <= k < ids.len() ==> is_random_uuid(#[trigger] ids[k]))
                && t == s.after_add_cue_at_selected(ids),
        KeyCommand::StartAlignment => t == s && r == Ok::<KeyAction, Seq<char>>(KeyAction::StartAlignment),
        KeyCommand::DownloadLyrics => t == s && r == Ok::<KeyAction, Seq<char>>(
            if s.documents.contains(VariantView::Original) { KeyAction::Nothing } else { KeyAction::DownloadLyrics },
        ),
        KeyCommand::EscapeNormal => match s.active_doc() {
            Some(st) => if st.unsaved_changes {
                t == s.with_active_unsaved(false) && r == Ok::<KeyAction, Seq<char>>(KeyAction::Reload)
            } else {
                t == s && r == Ok::<KeyAction, Seq<char>>(KeyAction::Nothing)
            },
            None => t == quit_state(s) && r == Ok::<KeyAction, Seq<char>>(KeyAction::Nothing),
        },
        KeyCommand::EscapeSelect => match s.active_doc() {
            Some(st) => if st.unsaved_changes {
                t == s.with_active_unsaved(false) && r == Ok::<KeyAction, Seq<char>>(KeyAction::Reload)
            } else {
                t == s.with_mode(ModeView::Normal) && r == Ok::<KeyAction, Seq<char>>(KeyAction::Nothing)
            },
            None => t == s.with_mode(ModeView::Normal) && r == Ok::<KeyAction, Seq<char>>(KeyAction::Nothing),
        },
        KeyCommand::EscapeEdit => match s.active_doc() {
            Some(st) => if st.unsaved_changes {
                t == s && r == Ok::<KeyAction, Seq<char>>(KeyAction::Reload)
            } else {
                t == s.after_switch_to_select(first) && r == as_key_result(s.switch_result())
            },
            None => t == s && r == as_key_result(s.switch_result()),
        },
        KeyCommand::CursorLeft | KeyCommand::CursorRight | KeyCommand::CursorUp | KeyCommand::CursorDown =>
            t == after_cursor_move(s, cmd) && r == Ok::<KeyAction, Seq<char>>(KeyAction::Nothing),
        KeyCommand::Type(ch) => t == s.after_type(Some(ch)) && r == Ok::<KeyAction, Seq<char>>(KeyAction::Nothing),
        KeyCommand::Erase => t == s.after_type(None) && r == Ok::<KeyAction, Seq<char>>(KeyAction::Nothing),
    }
}

/// Carrying out `cmd` stays within bounds.
pub open spec fn can_perform(s: AppStateView, cmd: KeyCommand, first: usize, lines: usize, clock: Option<i64>) -> bool {
    match cmd {
        KeyCommand::Undo => s.can_undo(),
        KeyCommand::Redo => s.can_redo(),
        KeyCommand::SeekToCurrent => s.active_cues() matches Some(c) ==> ((c is Word || c is Cue) ==> s.current_index() < cues_len(c)),
        KeyCommand::NextLine => s.can_go_to_next_line(),
        KeyCommand::NextHalfPage => s.can_go_to_next_half_page(lines),
        KeyCommand::EditMode => s.can_switch_to_edit(first),
        KeyCommand::ShiftAll(e) => s.can_edit_all_times(e),
        KeyCommand::EditCurrent(e) => s.can_edit_current_recorded(e),
        KeyCommand::StartAtClock => clock matches Some(p) ==> s.can_edit_current_recorded(CurrentTimeEdit::SetStart(p)),
        KeyCommand::EndAtClock => clock matches Some(p) ==> s.can_edit_current_recorded(CurrentTimeEdit::SetEnd(p)),
        KeyCommand::DeleteSelected => s.can_delete_selected_recorded(),
        KeyCommand::DeleteCurrent => s.can_delete_current_line(),
        KeyCommand::AddBefore => s.can_add_next_to_current(false),
        KeyCommand::AddAfter => s.can_add_next_to_current(true),
        KeyCommand::AddBeforeSelected | KeyCommand::AddAfterSelected => s.can_add_cue_at_selected(),
        KeyCommand::CursorRight => s.mode matches ModeView::Edit { cursor, .. } ==> cursor.active_column < usize::MAX,
        KeyCommand::Type(_) | KeyCommand::Erase => s.can_type(),
        _ => true,
    }
}

impl App {
    /// Where seeking to cue `cue_index` goes (see `seek_result`): an error
    /// without a track, without an active document, or for cues without
    /// times.
    pub fn seek_to_selected_line(&self, cue_index: usize) -> (r: Result<i64, String>)
        requires
            self.wf(),
            self.state.deep_view().active_cues() matches Some(c) ==> ((c is Word || c is Cue)
                ==> cue_index < cues_len(c)),
        ensures
            match r {
                Ok(p) => seek_result(self.state.deep_view(), cue_index) == Ok::<i64, Seq<char>>(p),
                Err(m) => seek_result(self.state.deep_view(), cue_index) == Err::<i64, Seq<char>>(m@),
            },
    {
        if self.state.track.is_none() {
            return Err(String::from_str("No track was found"));
        }
        match self.state.subtitle_documents.active_index() {
            None => Err(String::from_str("No subtitle_document was found")),
            Some(i) => match &self.state.subtitle_documents.documents[i].state.document.cues {
                SubtitleCues::Word(v) => Ok(v[cue_index].start),
                SubtitleCues::Cue(v) => Ok(v[cue_index].start),
                SubtitleCues::Line(_) => Err(String::from_str("No subtitle times")),
                SubtitleCues::Empty => Err(String::from_str("No subtitle cues")),
            },
        }
    }

    fn move_cursor(&mut self, cmd: KeyCommand)
        requires
            old(self).wf(),
            cmd is CursorLeft || cmd is CursorRight || cmd is CursorUp || cmd is CursorDown,
            can_perform(old(self).state.deep_view(), cmd, 0, 0, None),
        ensures
            final(self).wf(),
            final(self).state.deep_view() == after_cursor_move(old(self).state.deep_view(), cmd),
            final(self).keeps_engine(*old(self)),
    {
        let i = match self.state.subtitle_documents.active_index() {
            Some(i) => i,
            None => return,
        };
        let cues = &self.state.subtitle_documents.documents[i].state.document.cues;
        match &mut self.state.app_mode {
            AppMode::Edit { cursor, .. } => match cmd {
                KeyCommand::CursorLeft => cursor.move_left(),
                KeyCommand::CursorRight => {
                    let len = cues.cue_len(cursor.cue_index);
                    cursor.move_right(len);
                },
                KeyCommand::CursorUp => {
                    let len = cues.cue_len(cursor.cue_index.saturating_sub(1));
                    cursor.move_up(len);
                },
                _ => {
                    let n = cues.len();
                    let up = cursor.cue_index.saturating_add(1);
                    let last = n.saturating_sub(1);
                    let ni = if up <= last { up } else { last };
                    let len = cues.cue_len(ni);
                    cursor.move_down(len, n);
                },
            },
            _ => {},
        }
    }

    /// Carries out a command (see `performed`).
    pub fn perform(&mut self, cmd: KeyCommand, lines_per_page: usize, clock_position: Option<i64>) -> (r: Result<KeyAction, String>)
        requires
            old(self).wf(),
            can_perform(
                old(self).state.deep_view(),
                cmd,
                old(self).synchronizer.spec_first_active_cue(),
                lines_per_page,
                clock_position,
            ),
        ensures
            final(self).wf(),
            final(self).keeps_engine(*old(self)),
            performed(
                old(self).state.deep_view(),
                final(self).state.deep_view(),
                key_result_view(r),
                cmd,
                old(self).synchronizer.spec_first_active_cue(),
                lines_per_page,
                clock_position,
            ),
    {
        let ghost s = self.state.deep_view();
        match cmd {
            KeyCommand::Nothing => Ok(KeyAction::Nothing),
            KeyCommand::Quit => {
                self.state.quit = true;
                Ok(KeyAction::Nothing)
            },
            KeyCommand::Save => Ok(
                if self.state.subtitle_documents.active_index().is_some() { KeyAction::Save } else { KeyAction::Nothing },
            ),
            KeyCommand::SaveAndReload => Ok(
                if self.state.subtitle_documents.active_index().is_some() {
                    KeyAction::SaveAndReload
                } else {
                    KeyAction::Nothing
                },
            ),
            KeyCommand::Undo => {
                self.undo();
                Ok(KeyAction::Nothing)
            },
            KeyCommand::Redo => {
                self.redo();
                Ok(KeyAction::Nothing)
            },
            KeyCommand::TogglePlayPause => Ok(KeyAction::TogglePlayPause),
            KeyCommand::SeekBy(d) => Ok(KeyAction::SeekBy(d)),
            KeyCommand::SeekToCurrent => {
                let ci = match &self.state.app_mode {
                    AppMode::Normal => 0,
                    AppMode::Select { cue_index, .. } => *cue_index,
                    AppMode::Edit { cursor, .. } => cursor.cue_index,
                };
                match self.seek_to_selected_line(ci) {
                    Ok(p) => Ok(KeyAction::SeekTo(p)),
                    Err(m) => Err(m),
                }
            },
            KeyCommand::PreviousLine => {
                self.go_to_previous_line();
                Ok(KeyAction::Nothing)
            },
            KeyCommand::NextLine => {
                self.go_to_next_line();
                Ok(KeyAction::Nothing)
            },
            KeyCommand::PreviousHalfPage => {
                self.go_to_previous_half_page(lines_per_page);
                Ok(KeyAction::Nothing)
            },
            KeyCommand::NextHalfPage => {
                self.go_to_next_half_page(lines_per_page);
                Ok(KeyAction::Nothing)
            },
            KeyCommand::ToggleSelectAll => match self.toggle_select_all_lines() {
                Ok(()) => Ok(KeyAction::Nothing),
                Err(m) => Err(m),
            },
            KeyCommand::ToggleSelectLine => {
                self.toggle_select_line();
                Ok(KeyAction::Nothing)
            },
            KeyCommand::SelectMode => match self.switch_to_select_mode() {
                Ok(()) => Ok(KeyAction::Nothing),
                Err(m) => Err(m),
            },
            KeyCommand::EditMode => match self.switch_to_edit_mode() {
                Ok(()) => Ok(KeyAction::Nothing),
                Err(m) => Err(m),
            },
            KeyCommand::NormalMode => {
                self.switch_to_normal_mode();
                Ok(KeyAction::Nothing)
            },
            KeyCommand::ShiftAll(e) => {
                self.shift_all_times_recorded(e);
                Ok(KeyAction::Nothing)
            },
            KeyCommand::EditCurrent(e) => match self.edit_current_times_recorded(e) {
                Ok(()) => Ok(KeyAction::Nothing),
                Err(m) => Err(m),
            },
            KeyCommand::StartAtClock => match clock_position {
                Some(p) => match self.edit_current_times_recorded(CurrentTimeEdit::SetStart(p)) {
                    Ok(()) => Ok(KeyAction::Nothing),
                    Err(m) => Err(m),
                },
                None => Ok(KeyAction::Nothing),
            },
            KeyCommand::EndAtClock => match clock_position {
                Some(p) => match self.edit_current_times_recorded(CurrentTimeEdit::SetEnd(p)) {
                    Ok(()) => Ok(KeyAction::Nothing),
                    Err(m) => Err(m),
                },
                None => Ok(KeyAction::Nothing),
            },
            KeyCommand::DeleteSelected => {
                self.delete_selected_recorded();
                Ok(KeyAction::Nothing)
            },
            KeyCommand::DeleteCurrent => {
                self.delete_current_line();
                Ok(KeyAction::Nothing)
            },
            KeyCommand::AddBefore => {
                self.add_cue_before_current_cue();
                Ok(KeyAction::Nothing)
            },
            KeyCommand::AddAfter => {
                self.add_cue_after_current_cue();
                Ok(KeyAction::Nothing)
            },
            KeyCommand::AddBeforeSelected => {
                self.add_cue_before_selected_cues();
                Ok(KeyAction::Nothing)
            },
            KeyCommand::AddAfterSelected => {
                self.add_cue_after_selected_cues();
                Ok(KeyAction::Nothing)
            },
            KeyCommand::StartAlignment => Ok(KeyAction::StartAlignment),
            KeyCommand::DownloadLyrics => {
                if self.state.subtitle_documents.position(&crate::state::SubtitleVariant::Original).is_some() {
                    Ok(KeyAction::Nothing)
                } else {
                    Ok(KeyAction::DownloadLyrics)
                }
            },
            KeyCommand::EscapeNormal => match self.state.subtitle_documents.active_index() {
                Some(i) => if self.state.subtitle_documents.documents[i].state.unsaved_changes {
                    self.set_active_unsaved(false);
                    Ok(KeyAction::Reload)
                } else {
                    Ok(KeyAction::Nothing)
                },
                None => {
                    self.state.quit = true;
                    Ok(KeyAction::Nothing)
                },
            },
            KeyCommand::EscapeSelect => match self.state.subtitle_documents.active_index() {
                Some(i) => if self.state.subtitle_documents.documents[i].state.unsaved_changes {
                    self.set_active_unsaved(false);
                    Ok(KeyAction::Reload)
                } else {
                    self.switch_to_normal_mode();
                    Ok(KeyAction::Nothing)
                },
                None => {
                    self.switch_to_normal_mode();
                    Ok(KeyAction::Nothing)
                },
            },
            KeyCommand::EscapeEdit => match self.state.subtitle_documents.active_index() {
                Some(i) => if self.state.subtitle_documents.documents[i].state.unsaved_changes {
                    Ok(KeyAction::Reload)
                } else {
                    match self.switch_to_select_mode() {
                        Ok(()) => Ok(KeyAction::Nothing),
                        Err(m) => Err(m),
                    }
                },
                None => Err(String::from_str("No subtitle document found")),
            },
            KeyCommand::CursorLeft | KeyCommand::CursorRight | KeyCommand::CursorUp | KeyCommand::CursorDown => {
                self.move_cursor(cmd);
                Ok(KeyAction::Nothing)
            },
            KeyCommand::Type(ch) => {
                self.type_text(Some(ch));
                Ok(KeyAction::Nothing)
            },
            KeyCommand::Erase => {
                self.type_text(None);
                Ok(KeyAction::Nothing)
            },
        }
    }
}

/// The command of a key in the editor's mode; in the select and edit modes
/// without an active document, back to the normal mode.
pub open spec fn command_for(s: AppStateView, key: KeyPress, c: Config) -> KeyCommand {
    match s.mode {
        ModeView::Normal => normal_command(key, c),
        ModeView::Select { .. } => if s.active_cues() is None {
            KeyCommand::NormalMode
        } else {
            select_command(key, c)
        },
        ModeView::Edit { .. } => if s.active_cues() is None {
            KeyCommand::NormalMode
        } else {
            edit_command(key)
        },
    }
}

impl App {
    /// Handles a key outside dialogs: reads it as a command for the mode
    /// (see `command_for`) and carries it out (see `performed`).
    pub fn handle_key(&mut self, key: KeyPress, config: &Config, lines_per_page: usize, clock_position: Option<i64>) -> (r: Result<KeyAction, String>)
        requires
            old(self).wf(),
            can_perform(
                old(self).state.deep_view(),
                command_for(old(self).state.deep_view(), key, *config),
                old(self).synchronizer.spec_first_active_cue(),
                lines_per_page,
                clock_position,
            ),
        ensures
            final(self).wf(),
            final(self).keeps_engine(*old(self)),
            performed(
                old(self).state.deep_view(),
                final(self).state.deep_view(),
                key_result_view(r),
                command_for(old(self).state.deep_view(), key, *config),
                old(self).synchronizer.spec_first_active_cue(),
                lines_per_page,
                clock_position,
            ),
    {
        let has_document = self.state.subtitle_documents.active_index().is_some();
        let cmd = match &self.state.app_mode {
            AppMode::Normal => normal_key_command(key, config),
            AppMode::Select { .. } => if has_document {
                select_key_command(key, config)
            } else {
                KeyCommand::NormalMode
            },
            AppMode::Edit { .. } => if has_document {
                edit_key_command(key)
            } else {
                KeyCommand::NormalMode
            },
        };
        self.perform(cmd, lines_per_page, clock_position)
    }
}

/// What the front end does after a key: as after a key of a mode, or as
/// after a key in a dialog.
pub enum KeyOutcome {
    Key(KeyAction),
    Modal(crate::modal::ModalAction),
}

impl App {
    /// Handles a key: in the open dialog where there is one (see
    /// `after_modal_key`), else in the editor's mode (see `handle_key`).
    pub fn handle_keyboard_event(&mut self, key: KeyPress, config: &Config, lines_per_page: usize, clock_position: Option<i64>) -> (r: Result<KeyOutcome, String>)
        requires
            old(self).wf(),
            old(self).state.modal is None ==> can_perform(
                old(self).state.deep_view(),
                command_for(old(self).state.deep_view(), key, *config),
                old(self).synchronizer.spec_first_active_cue(),
                lines_per_page,
                clock_position,
            ),
        ensures
            final(self).wf(),
            final(self).keeps_engine(*old(self)),
            old(self).state.modal is Some ==> (r matches Ok(KeyOutcome::Modal(a)) && (
                final(self).state.deep_view(),
                a.deep_view(),
            ) == old(self).state.deep_view().after_modal_key(key)),
            old(self).state.modal is None ==> match r {
                Ok(KeyOutcome::Key(a)) => performed(
                    old(self).state.deep_view(),
                    final(self).state.deep_view(),
                    Ok(a),
                    command_for(old(self).state.deep_view(), key, *config),
                    old(self).synchronizer.spec_first_active_cue(),
                    lines_per_page,
                    clock_position,
                ),
                Ok(KeyOutcome::Modal(_)) => false,
                Err(m) => performed(
                    old(self).state.deep_view(),
                    final(self).state.deep_view(),
                    Err(m@),
                    command_for(old(self).state.deep_view(), key, *config),
                    old(self).synchronizer.spec_first_active_cue(),
                    lines_per_page,
                    clock_position,
                ),
            },
    {
        if self.state.modal.is_some() {
            let a = self.handle_modal_key(key);
            return Ok(KeyOutcome::Modal(a));
        }
        match self.handle_key(key, config, lines_per_page, clock_position) {
            Ok(a) => Ok(KeyOutcome::Key(a)),
            Err(m) => Err(m),
        }
    }
}

/// In the select mode, with a document: 'j' adds a blank cue after the
/// current one and 'k' one before it; 'd' deletes the current cue and 'D' the
/// selected ones; 'h' toggles the current cue's selection and 'H' all; 'o' and
/// 'i' add cues before and after the selected ones; the time keys move the
/// current cue's start ('m', ',', 'M', '<') or end ('.', '/', '>', '?')
/// earlier or later by the configured small or large step; 'c' and 'C' set its
/// start or end at the clock; the arrows move a line, or half a page with
/// control, and seek; these hold with or without control where control is not
/// read.
pub proof fn law_select_keys(s: AppStateView, c: Config, ctrl: bool)
    requires
        s.mode is Select,
        s.active_cues() is Some,
    ensures
        command_for(s, (KeyPress { code: KeyCode::Char('j'), ctrl: ctrl }), c) == KeyCommand::AddAfter,
        command_for(s, (KeyPress { code: KeyCode::Char('k'), ctrl: ctrl }), c) == KeyCommand::AddBefore,
        command_for(s, (KeyPress { code: KeyCode::Char('d'), ctrl: ctrl }), c) == KeyCommand::DeleteCurrent,
        command_for(s, (KeyPress { code: KeyCode::Char('D'), ctrl: ctrl }), c) == KeyCommand::DeleteSelected,
        command_for(s, (KeyPress { code: KeyCode::Char('h'), ctrl: ctrl }), c) == KeyCommand::ToggleSelectLine,
        command_for(s, (KeyPress { code: KeyCode::Char('H'), ctrl: ctrl }), c) == KeyCommand::ToggleSelectAll,
        command_for(s, (KeyPress { code: KeyCode::Char('o'), ctrl: ctrl }), c) == KeyCommand::AddBeforeSelected,
        command_for(s, (KeyPress { code: KeyCode::Char('i'), ctrl: ctrl }), c) == KeyCommand::AddAfterSelected,
        command_for(s, (KeyPress { code: KeyCode::Char('q'), ctrl: ctrl }), c) == KeyCommand::Quit,
        command_for(s, (KeyPress { code: KeyCode::Char(' '), ctrl: ctrl }), c) == KeyCommand::TogglePlayPause,
        command_for(s, (KeyPress { code: KeyCode::Char('m'), ctrl: ctrl }), c) == KeyCommand::EditCurrent(CurrentTimeEdit::EarlierStart(c.backwards_cue_increment_small)),
        command_for(s, (KeyPress { code: KeyCode::Char(','), ctrl: ctrl }), c) == KeyCommand::EditCurrent(CurrentTimeEdit::LaterStart(c.forwards_cue_increment_small)),
        command_for(s, (KeyPress { code: KeyCode::Char('.'), ctrl: ctrl }), c) == KeyCommand::EditCurrent(CurrentTimeEdit::EarlierEnd(c.backwards_cue_increment_small)),
        command_for(s, (KeyPress { code: KeyCode::Char('/'), ctrl: ctrl }), c) == KeyCommand::EditCurrent(CurrentTimeEdit::LaterEnd(c.forwards_cue_increment_small)),
        command_for(s, (KeyPress { code: KeyCode::Char('M'), ctrl: ctrl }), c) == KeyCommand::EditCurrent(CurrentTimeEdit::EarlierStart(c.backwards_cue_increment_large)),
        command_for(s, (KeyPress { code: KeyCode::Char('<'), ctrl: ctrl }), c) == KeyCommand::EditCurrent(CurrentTimeEdit::LaterStart(c.forwards_cue_increment_large)),
        command_for(s, (KeyPress { code: KeyCode::Char('>'), ctrl: ctrl }), c) == KeyCommand::EditCurrent(CurrentTimeEdit::EarlierEnd(c.backwards_cue_increment_large)),
        command_for(s, (KeyPress { code: KeyCode::Char('?'), ctrl: ctrl }), c) == KeyCommand::EditCurrent(CurrentTimeEdit::LaterEnd(c.forwards_cue_increment_large)),
        command_for(s, (KeyPress { code: KeyCode::Char('c'), ctrl: false }), c) == KeyCommand::StartAtClock,
        command_for(s, (KeyPress { code: KeyCode::Char('C'), ctrl: false }), c) == KeyCommand::EndAtClock,
        command_for(s, (KeyPress { code: KeyCode::Char('c'), ctrl: true }), c) == KeyCommand::Quit,
        command_for(s, (KeyPress { code: KeyCode::Char('s'), ctrl: true }), c) == KeyCommand::SaveAndReload,
        command_for(s, (KeyPress { code: KeyCode::Char('z'), ctrl: true }), c) == KeyCommand::Undo,
        command_for(s, (KeyPress { code: KeyCode::Char('r'), ctrl: true }), c) == KeyCommand::Redo,
        command_for(s, (KeyPress { code: KeyCode::Up, ctrl: false }), c) == KeyCommand::PreviousLine,
        command_for(s, (KeyPress { code: KeyCode::Down, ctrl: false }), c) == KeyCommand::NextLine,
        command_for(s, (KeyPress { code: KeyCode::Up, ctrl: true }), c) == KeyCommand::PreviousHalfPage,
        command_for(s, (KeyPress { code: KeyCode::Down, ctrl: true }), c) == KeyCommand::NextHalfPage,
        command_for(s, (KeyPress { code: KeyCode::Enter, ctrl: ctrl }), c) == KeyCommand::SeekToCurrent,
        command_for(s, (KeyPress { code: KeyCode::Tab, ctrl: ctrl }), c) == KeyCommand::EditMode,
        command_for(s, (KeyPress { code: KeyCode::Esc, ctrl: ctrl }), c) == KeyCommand::EscapeSelect,
        command_for(s, (KeyPress { code: KeyCode::Left, ctrl: ctrl }), c) == KeyCommand::SeekBy(c.rewind_duration),
        command_for(s, (KeyPress { code: KeyCode::Right, ctrl: ctrl }), c) == KeyCommand::SeekBy(c.fast_forward_duration),
{
}

/// In the normal mode: 'j' and 'k' (and the arrows) move a line down and up;
/// 'h' toggles the selection of every cue; the time keys shift every cue's
/// start ('m', ',', 'M', '<') or end ('.', '/', '>', '?') earlier or later by
/// the configured small or large step; 'a' starts an alignment and 'd' a
/// download of lyrics; Enter and Tab enter the select mode; left and right
/// seek by the configured steps.
pub proof fn law_normal_keys(s: AppStateView, c: Config, ctrl: bool)
    requires
        s.mode is Normal,
    ensures
        command_for(s, (KeyPress { code: KeyCode::Char('j'), ctrl: ctrl }), c) == KeyCommand::NextLine,
        command_for(s, (KeyPress { code: KeyCode::Char('k'), ctrl: ctrl }), c) == KeyCommand::PreviousLine,
        command_for(s, (KeyPress { code: KeyCode::Char('h'), ctrl: ctrl }), c) == KeyCommand::ToggleSelectAll,
        command_for(s, (KeyPress { code: KeyCode::Char(' '), ctrl: ctrl }), c) == KeyCommand::TogglePlayPause,
        command_for(s, (KeyPress { code: KeyCode::Char('a'), ctrl: ctrl }), c) == KeyCommand::StartAlignment,
        command_for(s, (KeyPress { code: KeyCode::Char('d'), ctrl: ctrl }), c) == KeyCommand::DownloadLyrics,
        command_for(s, (KeyPress { code: KeyCode::Char('m'), ctrl: ctrl }), c) == KeyCommand::ShiftAll(AllTimesEdit::EarlierStarts(c.backwards_cue_increment_small)),
        command_for(s, (KeyPress { code: KeyCode::Char(','), ctrl: ctrl }), c) == KeyCommand::ShiftAll(AllTimesEdit::LaterStarts(c.forwards_cue_increment_small)),
        command_for(s, (KeyPress { code: KeyCode::Char('.'), ctrl: ctrl }), c) == KeyCommand::ShiftAll(AllTimesEdit::EarlierEnds(c.backwards_cue_increment_small)),
        command_for(s, (KeyPress { code: KeyCode::Char('/'), ctrl: ctrl }), c) == KeyCommand::ShiftAll(AllTimesEdit::LaterEnds(c.forwards_cue_increment_small)),
        command_for(s, (KeyPress { code: KeyCode::Char('M'), ctrl: ctrl }), c) == KeyCommand::ShiftAll(AllTimesEdit::EarlierStarts(c.backwards_cue_increment_large)),
        command_for(s, (KeyPress { code: KeyCode::Char('<'), ctrl: ctrl }), c) == KeyCommand::ShiftAll(AllTimesEdit::LaterStarts(c.forwards_cue_increment_large)),
        command_for(s, (KeyPress { code: KeyCode::Char('>'), ctrl: ctrl }), c) == KeyCommand::ShiftAll(AllTimesEdit::EarlierEnds(c.backwards_cue_increment_large)),
        command_for(s, (KeyPress { code: KeyCode::Char('?'), ctrl: ctrl }), c) == KeyCommand::ShiftAll(AllTimesEdit::LaterEnds(c.forwards_cue_increment_large)),
        command_for(s, (KeyPress { code: KeyCode::Char('c'), ctrl: true }), c) == KeyCommand::Quit,
        command_for(s, (KeyPress { code: KeyCode::Char('s'), ctrl: true }), c) == KeyCommand::Save,
        command_for(s, (KeyPress { code: KeyCode::Char('z'), ctrl: true }), c) == KeyCommand::Undo,
        command_for(s, (KeyPress { code: KeyCode::Char('r'), ctrl: true }), c) == KeyCommand::Redo,
        command_for(s, (KeyPress { code: KeyCode::Up, ctrl: ctrl }), c) == KeyCommand::PreviousLine,
        command_for(s, (KeyPress { code: KeyCode::Down, ctrl: ctrl }), c) == KeyCommand::NextLine,
        command_for(s, (KeyPress { code: KeyCode::Enter, ctrl: ctrl }), c) == KeyCommand::SelectMode,
        command_for(s, (KeyPress { code: KeyCode::Tab, ctrl: ctrl }), c) == KeyCommand::SelectMode,
        command_for(s, (KeyPress { code: KeyCode::Esc, ctrl: ctrl }), c) == KeyCommand::EscapeNormal,
        command_for(s, (KeyPress { code: KeyCode::Left, ctrl: ctrl }), c) == KeyCommand::SeekBy(c.rewind_duration),
        command_for(s, (KeyPress { code: KeyCode::Right, ctrl: ctrl }), c) == KeyCommand::SeekBy(c.fast_forward_duration),
{
}

/// In the edit mode, with a document: a character types itself (with
/// control, but for the quit, save, undo and redo keys); Backspace erases; the
/// arrows move the cursor; Tab goes to the normal mode and Enter to the select
/// mode.
pub proof fn law_edit_keys(s: AppStateView, c: Config, ch: char, ctrl: bool)
    requires
        s.mode is Edit,
        s.active_cues() is Some,
    ensures
        ch != 'c' && ch != 's' && ch != 'z' && ch != 'r' ==> command_for(s, (KeyPress { code: KeyCode::Char(ch), ctrl: ctrl }), c) == KeyCommand::Type(ch),
        command_for(s, (KeyPress { code: KeyCode::Char(ch), ctrl: false }), c) == KeyCommand::Type(ch),
        command_for(s, (KeyPress { code: KeyCode::Char('c'), ctrl: true }), c) == KeyCommand::Quit,
        command_for(s, (KeyPress { code: KeyCode::Char('s'), ctrl: true }), c) == KeyCommand::SaveAndReload,
        command_for(s, (KeyPress { code: KeyCode::Char('z'), ctrl: true }), c) == KeyCommand::Undo,
        command_for(s, (KeyPress { code: KeyCode::Char('r'), ctrl: true }), c) == KeyCommand::Redo,
        command_for(s, (KeyPress { code: KeyCode::Backspace, ctrl: ctrl }), c) == KeyCommand::Erase,
        command_for(s, (KeyPress { code: KeyCode::Left, ctrl: ctrl }), c) == KeyCommand::CursorLeft,
        command_for(s, (KeyPress { code: KeyCode::Right, ctrl: ctrl }), c) == KeyCommand::CursorRight,
        command_for(s, (KeyPress { code: KeyCode::Up, ctrl: ctrl }), c) == KeyCommand::CursorUp,
        command_for(s, (KeyPress { code: KeyCode::Down, ctrl: ctrl }), c) == KeyCommand::CursorDown,
        command_for(s, (KeyPress { code: KeyCode::Esc, ctrl: ctrl }), c) == KeyCommand::EscapeEdit,
        command_for(s, (KeyPress { code: KeyCode::Tab, ctrl: ctrl }), c) == KeyCommand::NormalMode,
        command_for(s, (KeyPress { code: KeyCode::Enter, ctrl: ctrl }), c) == KeyCommand::SelectMode,
{
}

/// Pressing 'j' in the select mode (with a track and a current cue `i`)
/// puts a blank cue in after the current one, at `i + 1`, the current index
/// staying at `i`; 'k' puts it in before, at `i`, the current index moving to
/// `i + 1` with its cue.
pub proof fn law_select_add_keys(
    s: AppStateView,
    t: AppStateView,
    r: Result<KeyAction, Seq<char>>,
    c: Config,
    ctrl: bool,
    add_after: bool,
    first: usize,
    lines: usize,
    clock: Option<i64>,
)
    requires
        s.documents.wf(),
        s.track is Some,
        s.mode matches ModeView::Select { cue_index, .. } && s.active_cues() matches Some(cv) && !(cv is Empty)
            && cue_index < cues_len(cv) && cues_len(cv) <= usize::MAX,
        performed(s, t, r, command_for(s, (KeyPress { code: KeyCode::Char(if add_after { 'j' } else { 'k' }), ctrl }), c), first, lines, clock),
    ensures
        ({
            let i = s.mode->Select_cue_index;
            &&& t.active_cues() matches Some(c2) && crate::app::addition::inserted_at(
                s.active_cues()->0, c2, if add_after { i + 1 } else { i as int })
            &&& crate::app::deletion::current_index(t.mode) == Some((if add_after { i as int } else { i + 1 }) as usize)
        }),
{
    law_select_keys(s, c, ctrl);
    if add_after {
        let id = choose|id: u128| is_random_uuid(id) && t == s.after_add_cue_after_current(id);
        crate::app::addition::law_add_next_to_current(s, id);
    } else {
        let id = choose|id: u128| is_random_uuid(id) && t == s.after_add_cue_before_current(id);
        crate::app::addition::law_add_next_to_current(s, id);
    }
}

/// Pressing up or down in the select mode (with a track, in a document with
/// cues) moves the current cue a line, or with control `p / 2` cues for a page
/// of `p` lines, never past the first or last cue.
pub proof fn law_select_arrow_keys(
    s: AppStateView,
    t: AppStateView,
    r: Result<KeyAction, Seq<char>>,
    c: Config,
    ctrl: bool,
    up: bool,
    first: usize,
    p: usize,
    clock: Option<i64>,
)
    requires
        s.track is Some,
        s.mode is Select,
        s.active_cues() matches Some(cv) && !(cv is Empty) && cues_len(cv) > 0 && cues_len(cv) <= usize::MAX,
        performed(s, t, r, command_for(s, (KeyPress { code: if up { KeyCode::Up } else { KeyCode::Down }, ctrl }), c), first, p, clock),
    ensures
        ({
            let i = s.mode->Select_cue_index as int;
            let n = cues_len(s.active_cues()->0) as int;
            let step = if ctrl { (p / 2) as int } else { 1int };
            &&& t.documents == s.documents
            &&& t.mode matches ModeView::Select { cue_index, .. } && cue_index == if up {
                if i >= step { i - step } else { 0 }
            } else if i + step < n {
                i + step
            } else if ctrl {
                n - 1
            } else {
                i
            }
        }),
{
    law_select_keys(s, c, ctrl);
    crate::app::navigation::law_select_moves_by_lines(s, first, p);
}

} // verus!

//! Moving the current cue (and the cursor of the edit mode) by lines and by
//! half pages, and where the synchroniser says playback is.

use vstd::prelude::*;

use crate::app::App;
use crate::cues::{cue_len_of, saturate, CuesView};
use crate::mode::{AppMode, Cursor, ModeView};
use crate::state::AppStateView;
use crate::synchronizer::{ActiveIndex, CueIndex};

verus! {

impl App {
    /// The cue of the first active index (the first cue when none is
    /// active), where there is an active document.
    pub open spec fn spec_first_active_cue_index(self) -> Option<usize> {
        if self.state.deep_view().active_cues() is Some {
            Some(self.synchronizer.spec_first_active_cue())
        } else {
            None
        }
    }

    /// The first active index (the first cue when none is active), where
    /// there is an active document.
    pub fn get_first_active_index(&self) -> (r: Option<ActiveIndex>)
        requires
            self.wf(),
        ensures
            r == if self.state.deep_view().active_cues() is Some {
                Some(if self.synchronizer.spec_active_indices().len() > 0 {
                    self.synchronizer.spec_active_indices()[0]
                } else {
                    ActiveIndex::Cue(CueIndex { cue: 0 })
                })
            } else {
                None::<ActiveIndex>
            },
    {
        match self.state.subtitle_documents.active_index() {
            Some(_) => {
                let indices = self.synchronizer.get_active_indices();
                if indices.len() > 0 {
                    Some(indices[0])
                } else {
                    Some(ActiveIndex::default())
                }
            },
            None => None,
        }
    }

    /// The cue of the first active index (the first cue when none is
    /// active), where there is an active document.
    pub fn get_first_active_cue_index(&self) -> (r: Option<usize>)
        requires
            self.wf(),
        ensures
            r == self.spec_first_active_cue_index(),
    {
        match self.state.subtitle_documents.active_index() {
            Some(_) => Some(self.synchronizer.first_active_cue()),
            None => None,
        }
    }
}

/// The length, as reported, of the text of cue `index` of `c`.
pub open spec fn line_len(c: CuesView, index: usize) -> usize {
    saturate(cue_len_of(c, index as int)) as usize
}

/// `a - b`, or 0 where that is negative.
pub open spec fn sat_sub(a: usize, b: usize) -> usize {
    if a >= b { (a - b) as usize } else { 0 }
}

impl AppStateView {
    /// The select mode at `first`, with nothing selected, where there is an
    /// active document; else the normal mode.
    pub open spec fn select_first(self, first: usize) -> ModeView {
        if self.active_cues() is Some {
            ModeView::Select { cue_index: first, selected_cues: Seq::empty() }
        } else {
            ModeView::Normal
        }
    }

    /// The state once the current cue moves up a line (from the normal mode:
    /// to `first`, the first active cue).
    pub open spec fn after_previous_line(self, first: usize) -> AppStateView {
        let s = if self.track is None || self.active_cues() is None {
            self.with_mode(ModeView::Normal)
        } else {
            self
        };
        match s.active_cues() {
            None => s,
            Some(c) => s.with_mode(
                match s.mode {
                    ModeView::Normal => s.select_first(first),
                    ModeView::Select { cue_index, selected_cues } => ModeView::Select {
                        cue_index: sat_sub(cue_index, 1),
                        selected_cues,
                    },
                    ModeView::Edit { cursor, selected_cues } => ModeView::Edit {
                        cursor: cursor.up_to(line_len(c, sat_sub(cursor.cue_index, 1))),
                        selected_cues,
                    },
                },
            ),
        }
    }

    /// The state once the current cue moves down a line, stopping at the
    /// last (from the normal mode: to `first`, the first active cue).
    pub open spec fn after_next_line(self, first: usize) -> AppStateView {
        if self.track is None {
            self.with_mode(ModeView::Normal)
        } else {
            match self.mode {
                ModeView::Normal => self.with_mode(self.select_first(first)),
                ModeView::Select { cue_index, selected_cues } => match self.active_cues() {
                    None => self.with_mode(ModeView::Normal),
                    Some(CuesView::Empty) => self,
                    Some(c) => self.with_mode(ModeView::Select {
                        cue_index: if cue_index + 1 < crate::app::deletion::cues_len(c) { (cue_index + 1) as usize } else { cue_index },
                        selected_cues,
                    }),
                },
                ModeView::Edit { cursor, selected_cues } => match self.active_cues() {
                    None => self.with_mode(ModeView::Normal),
                    Some(CuesView::Empty) => self,
                    Some(c) => {
                        let n = crate::app::deletion::cues_len(c);
                        let ni = if cursor.cue_index + 1 < n { (cursor.cue_index + 1) as usize } else { cursor.cue_index };
                        self.with_mode(ModeView::Edit { cursor: cursor.down_to(line_len(c, ni), n as usize), selected_cues })
                    },
                },
            }
        }
    }

    /// Moving down a line stays within bounds: outside the normal mode the
    /// document has cues (where it has a level).
    pub open spec fn can_go_to_next_line(self) -> bool {
        self.track is Some && !(self.mode is Normal) ==> match self.active_cues() {
            Some(c) => !(c is Empty) ==> crate::app::deletion::cues_len(c) > 0,
            None => true,
        }
    }

    /// The state once the current cue moves up `lines_per_page / 2` lines,
    /// stopping at the first (from the normal mode: to `first`).
    pub open spec fn after_previous_half_page(self, first: usize, lines_per_page: usize) -> AppStateView {
        let lines = (lines_per_page / 2) as usize;
        let s = if self.track is None || self.active_cues() is None {
            self.with_mode(ModeView::Normal)
        } else {
            self
        };
        match s.active_cues() {
            None => s,
            Some(c) => s.with_mode(
                match s.mode {
                    ModeView::Normal => s.select_first(first),
                    ModeView::Select { cue_index, selected_cues } => ModeView::Select {
                        cue_index: sat_sub(cue_index, lines),
                        selected_cues,
                    },
                    ModeView::Edit { cursor, selected_cues } => {
                        let ni = sat_sub(cursor.cue_index, lines);
                        ModeView::Edit {
                            cursor: Cursor { cue_index: ni, active_column: line_len(c, ni), target_column: line_len(c, ni) },
                            selected_cues,
                        }
                    },
                },
            ),
        }
    }

    /// Where a half page down takes the current cue: `lines` further where
    /// that is before the last `lines` cues, else the last cue.
    pub open spec fn half_page_down(i: usize, lines: usize, n: nat) -> usize {
        if i + lines < n { (i + lines) as usize } else { (n - 1) as usize }
    }

    /// The state once the current cue moves down `lines_per_page / 2` lines,
    /// stopping at the last (from the normal mode: to `first`).
    pub open spec fn after_next_half_page(self, first: usize, lines_per_page: usize) -> AppStateView {
        let lines = (lines_per_page / 2) as usize;
        let s = if self.track is None { self.with_mode(ModeView::Normal) } else { self };
        match s.mode {
            ModeView::Normal => s.with_mode(s.select_first(first)),
            ModeView::Select { cue_index, selected_cues } => match s.active_cues() {
                None => s.with_mode(ModeView::Normal),
                Some(CuesView::Empty) => s,
                Some(c) => s.with_mode(ModeView::Select {
                    cue_index: Self::half_page_down(cue_index, lines, crate::app::deletion::cues_len(c)),
                    selected_cues,
                }),
            },
            ModeView::Edit { cursor, selected_cues } => match s.active_cues() {
                None => s.with_mode(ModeView::Normal),
                Some(CuesView::Empty) => s,
                Some(c) => {
                    let ni = Self::half_page_down(cursor.cue_index, lines, crate::app::deletion::cues_len(c));
                    s.with_mode(ModeView::Edit {
                        cursor: Cursor { cue_index: ni, active_column: line_len(c, ni), target_column: line_len(c, ni) },
                        selected_cues,
                    })
                },
            },
        }
    }

    /// Moving down half a page stays within bounds: outside the normal mode
    /// the document has cues, at least `lines_per_page / 2` of them.
    pub open spec fn can_go_to_next_half_page(self, lines_per_page: usize) -> bool {
        self.track is Some && !(self.mode is Normal) ==> match self.active_cues() {
            Some(c) => !(c is Empty) ==> crate::app::deletion::cues_len(c) > 0
                && crate::app::deletion::cues_len(c) >= lines_per_page / 2,
            None => true,
        }
    }
}

impl App {
    /// Moves the current cue up a line (the cursor of the edit mode keeps
    /// its target column); from the normal mode, selects the first active
    /// cue.
    pub fn go_to_previous_line(&mut self)
        requires
            old(self).wf(),
        ensures
            final(self).wf(),
            final(self).state.deep_view() == old(self).state.deep_view().after_previous_line(
                old(self).synchronizer.spec_first_active_cue(),
            ),
            final(self).keeps_engine(*old(self)),
    {
        let ghost first = self.synchronizer.spec_first_active_cue();
        let active = self.state.subtitle_documents.active_index();
        if self.state.track.is_none() || active.is_none() {
            self.switch_to_normal_mode();
        }
        let i = match active {
            Some(i) => i,
            None => return,
        };
        let first_cue = self.synchronizer.first_active_cue();
        if self.state.is_normal_mode() {
            self.state.app_mode = AppMode::Select { cue_index: first_cue, selected_cues: Vec::new() };
            assert(self.state.deep_view().mode->Select_selected_cues =~= Seq::<usize>::empty());
            return;
        }
        let cues = &self.state.subtitle_documents.documents[i].state.document.cues;
        match &mut self.state.app_mode {
            AppMode::Normal => {},
            AppMode::Select { cue_index, .. } => {
                *cue_index = cue_index.saturating_sub(1);
            },
            AppMode::Edit { cursor, .. } => {
                let len = cues.cue_len(cursor.cue_index.saturating_sub(1));
                cursor.move_up(len);
            },
        }
    }

    /// Moves the current cue down a line, stopping at the last (the cursor
    /// of the edit mode keeps its target column); from the normal mode,
    /// selects the first active cue.
    pub fn go_to_next_line(&mut self)
        requires
            old(self).wf(),
            old(self).state.deep_view().can_go_to_next_line(),
        ensures
            final(self).wf(),
            final(self).state.deep_view() == old(self).state.deep_view().after_next_line(
                old(self).synchronizer.spec_first_active_cue(),
            ),
            final(self).keeps_engine(*old(self)),
    {
        if self.state.track.is_none() {
            self.switch_to_normal_mode();
            return;
        }
        let first_cue = self.synchronizer.first_active_cue();
        let active = self.state.subtitle_documents.active_index();
        if self.state.is_normal_mode() {
            if active.is_some() {
                self.state.app_mode = AppMode::Select { cue_index: first_cue, selected_cues: Vec::new() };
                assert(self.state.deep_view().mode->Select_selected_cues =~= Seq::<usize>::empty());
            }
            return;
        }
        let i = match active {
            Some(i) => i,
            None => {
                self.switch_to_normal_mode();
                return;
            },
        };
        let cues = &self.state.subtitle_documents.documents[i].state.document.cues;
        let n = cues.len();
        if n == 0 {
            assert(cues.deep_view() is Empty);
            return;
        }
        match &mut self.state.app_mode {
            AppMode::Normal => {},
            AppMode::Select { cue_index, .. } => {
                if *cue_index < n - 1 {
                    *cue_index = *cue_index + 1;
                }
            },
            AppMode::Edit { cursor, .. } => {
                let ni = if cursor.cue_index < n - 1 { cursor.cue_index + 1 } else { cursor.cue_index };
                let len = cues.cue_len(ni);
                cursor.move_down(len, n);
            },
        }
    }

    /// Moves the current cue up `lines_per_page / 2` lines, stopping at the
    /// first (the cursor goes to the end of its new line); from the normal
    /// mode, selects the first active cue.
    pub fn go_to_previous_half_page(&mut self, lines_per_page: usize)
        requires
            old(self).wf(),
        ensures
            final(self).wf(),
            final(self).state.deep_view() == old(self).state.deep_view().after_previous_half_page(
                old(self).synchronizer.spec_first_active_cue(),
                lines_per_page,
            ),
            final(self).keeps_engine(*old(self)),
    {
        let active = self.state.subtitle_documents.active_index();
        if self.state.track.is_none() || active.is_none() {
            self.switch_to_normal_mode();
        }
        let i = match active {
            Some(i) => i,
            None => return,
        };
        let lines = lines_per_page / 2;
        let first_cue = self.synchronizer.first_active_cue();
        if self.state.is_normal_mode() {
            self.state.app_mode = AppMode::Select { cue_index: first_cue, selected_cues: Vec::new() };
            assert(self.state.deep_view().mode->Select_selected_cues =~= Seq::<usize>::empty());
            return;
        }
        let cues = &self.state.subtitle_documents.documents[i].state.document.cues;
        match &mut self.state.app_mode {
            AppMode::Normal => {},
            AppMode::Select { cue_index, .. } => {
                *cue_index = cue_index.saturating_sub(lines);
            },
            AppMode::Edit { cursor, .. } => {
                let ni = cursor.cue_index.saturating_sub(lines);
                let len = cues.cue_len(ni);
                *cursor = Cursor::new(ni, len);
            },
        }
    }

    /// Moves the current cue down `lines_per_page / 2` lines, or to the last
    /// cue where fewer are left (the cursor goes to the end of its new line);
    /// from the normal mode, selects the first active cue.
    pub fn go_to_next_half_page(&mut self, lines_per_page: usize)
        requires
            old(self).wf(),
            old(self).state.deep_view().can_go_to_next_half_page(lines_per_page),
        ensures
            final(self).wf(),
            final(self).state.deep_view() == old(self).state.deep_view().after_next_half_page(
                old(self).synchronizer.spec_first_active_cue(),
                lines_per_page,
            ),
            final(self).keeps_engine(*old(self)),
    {
        if self.state.track.is_none() {
            self.switch_to_normal_mode();
        }
        let lines = lines_per_page / 2;
        let first_cue = self.synchronizer.first_active_cue();
        let active = self.state.subtitle_documents.active_index();
        if self.state.is_normal_mode() {
            if active.is_some() {
                self.state.app_mode = AppMode::Select { cue_index: first_cue, selected_cues: Vec::new() };
                assert(self.state.deep_view().mode->Select_selected_cues =~= Seq::<usize>::empty());
            }
            return;
        }
        let i = match active {
            Some(i) => i,
            None => {
                self.switch_to_normal_mode();
                return;
            },
        };
        let cues = &self.state.subtitle_documents.documents[i].state.document.cues;
        let n = cues.len();
        if n == 0 {
            assert(cues.deep_view() is Empty);
            return;
        }
        match &mut self.state.app_mode {
            AppMode::Normal => {},
            AppMode::Select { cue_index, .. } => {
                *cue_index = if *cue_index < n - lines { *cue_index + lines } else { n - 1 };
            },
            AppMode::Edit { cursor, .. } => {
                let ni = if cursor.cue_index < n - lines { cursor.cue_index + lines } else { n - 1 };
                let len = cues.cue_len(ni);
                *cursor = Cursor::new(ni, len);
            },
        }
    }
}

// ---------------------------------------------------------------------------
// What moving by lines and half pages does.

/// From the select mode, in a document with cues: up a line the current cue
/// becomes the one before it (the first stays), down a line the one after it
/// (the last stays); up half a page of `p` lines it goes `p / 2` cues up,
/// never past the first, and down half a page `p / 2` cues down, never past
/// the last. The documents and the selection are kept.
pub proof fn law_select_moves_by_lines(s: AppStateView, first: usize, p: usize)
    requires
        s.track is Some,
        s.mode is Select,
        s.active_cues() matches Some(c) && !(c is Empty) && crate::app::deletion::cues_len(c) > 0,
    ensures
        match s.mode {
            ModeView::Select { cue_index, selected_cues } => {
                let i = cue_index as int;
                let n = crate::app::deletion::cues_len(s.active_cues()->0) as int;
                let h = (p / 2) as int;
                &&& s.after_previous_line(first).documents == s.documents
                &&& s.after_previous_line(first).mode == ModeView::Select {
                    cue_index: (if i >= 1 { i - 1 } else { 0 }) as usize,
                    selected_cues,
                }
                &&& s.after_next_line(first).documents == s.documents
                &&& s.after_next_line(first).mode == ModeView::Select {
                    cue_index: (if i + 1 < n { i + 1 } else { i }) as usize,
                    selected_cues,
                }
                &&& s.after_previous_half_page(first, p).documents == s.documents
                &&& s.after_previous_half_page(first, p).mode == ModeView::Select {
                    cue_index: (if i >= h { i - h } else { 0 }) as usize,
                    selected_cues,
                }
                &&& s.after_next_half_page(first, p).documents == s.documents
                &&& s.after_next_half_page(first, p).mode == ModeView::Select {
                    cue_index: (if i + h < n { i + h } else { n - 1 }) as usize,
                    selected_cues,
                }
            },
            _ => false,
        },
{
}

/// From the edit mode on a cue of a document with cues, the cursor moves to
/// the cue the select mode would go to: one up or down a line (staying at the
/// first or last), `p / 2` up or down a half page of `p` lines (never past the
/// first or last), and after a half page it stands at the end of its line. The
/// documents and the edited cues are kept.
pub proof fn law_edit_moves_by_lines(s: AppStateView, first: usize, p: usize)
    requires
        s.track is Some,
        s.active_cues() matches Some(c) && !(c is Empty),
        s.mode matches ModeView::Edit { cursor, .. } && cursor.cue_index < crate::app::deletion::cues_len(s.active_cues()->0),
        crate::app::deletion::cues_len(s.active_cues()->0) <= usize::MAX,
    ensures
        match s.mode {
            ModeView::Edit { cursor, selected_cues } => {
                let c = s.active_cues()->0;
                let i = cursor.cue_index as int;
                let n = crate::app::deletion::cues_len(c) as int;
                let h = (p / 2) as int;
                let up = (if i >= h { i - h } else { 0 }) as usize;
                let down = (if i + h < n { i + h } else { n - 1 }) as usize;
                &&& s.after_previous_line(first).documents == s.documents
                &&& s.after_previous_line(first).mode matches ModeView::Edit { cursor: k, selected_cues: e }
                    && k.cue_index == (if i >= 1 { i - 1 } else { 0 }) && e == selected_cues
                &&& s.after_next_line(first).documents == s.documents
                &&& s.after_next_line(first).mode matches ModeView::Edit { cursor: k, selected_cues: e }
                    && k.cue_index == (if i + 1 < n { i + 1 } else { i }) && e == selected_cues
                &&& s.after_previous_half_page(first, p).documents == s.documents
                &&& s.after_previous_half_page(first, p).mode == ModeView::Edit {
                    cursor: Cursor { cue_index: up, active_column: line_len(c, up), target_column: line_len(c, up) },
                    selected_cues,
                }
                &&& s.after_next_half_page(first, p).documents == s.documents
                &&& s.after_next_half_page(first, p).mode == ModeView::Edit {
                    cursor: Cursor { cue_index: down, active_column: line_len(c, down), target_column: line_len(c, down) },
                    selected_cues,
                }
            },
            _ => false,
        },
{
}

/// From the normal mode, with a track and a document, moving by a line or a
/// half page enters the select mode at `first`, nothing selected.
pub proof fn law_normal_moves_select_first(s: AppStateView, first: usize, p: usize)
    requires
        s.mode is Normal,
        s.active_cues() is Some,
    ensures
        s.track is Some ==> {
            let m = ModeView::Select { cue_index: first, selected_cues: Seq::empty() };
            &&& s.after_previous_line(first).mode == m
            &&& s.after_next_line(first).mode == m
            &&& s.after_previous_half_page(first, p).mode == m
            &&& s.after_next_half_page(first, p).mode == m
        },
        s.after_previous_line(first).documents == s.documents,
        s.after_next_half_page(first, p).documents == s.documents,
{
}

} // verus!

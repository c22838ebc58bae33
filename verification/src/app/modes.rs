//! Switching between the normal, select and edit modes, and selecting cues.

use vstd::prelude::*;

use crate::app::navigation::line_len;
use crate::app::timing::result_view;
use crate::app::{edit_indices, App};
use crate::cues::{single_of, CuesView};
use crate::mode::{AppMode, Cursor, EditCue, EditCueView, ModeView};
use crate::state::AppStateView;

verus! {

broadcast use {vstd::seq_lib::group_to_multiset_ensures, vstd::multiset::group_multiset_axioms};

/// The first place where `x` occurs in `s` (where it occurs).
pub open spec fn first_pos(s: Seq<usize>, x: usize) -> int {
    choose|p: int| 0 <= p < s.len() && s[p] == x && forall|q: int| 0 <= q < p ==> s[q] != x
}

/// The selection with `x` taken out (its first occurrence) where it is
/// selected, else with `x` added at the end.
pub open spec fn toggled(s: Seq<usize>, x: usize) -> Seq<usize> {
    if s.contains(x) {
        s.remove(first_pos(s, x))
    } else {
        s.push(x)
    }
}

/// The edited cues for the selected indices, each with its cue alone as the
/// content from before the edit.
pub open spec fn edit_cues_for(c: CuesView, sel: Seq<usize>) -> Seq<EditCueView> {
    sel.map_values(|i: usize| EditCueView { index: i, original_content: single_of(c, i as int) })
}

/// A cursor at the end of cue `i` of `c`.
pub open spec fn cursor_at_end(c: CuesView, i: usize) -> Cursor {
    Cursor { cue_index: i, active_column: line_len(c, i), target_column: line_len(c, i) }
}

impl AppStateView {
    /// Switching mode needs an active document.
    pub open spec fn switch_result(self) -> Result<(), Seq<char>> {
        if self.active_cues() is None {
            Err("No subtitle document found"@)
        } else {
            Ok(())
        }
    }

    /// The state once the select mode is entered: from the normal mode at
    /// `first` (the first active cue) with nothing selected, from the edit
    /// mode at the cursor's cue with the edited cues selected.
    pub open spec fn after_switch_to_select(self, first: usize) -> AppStateView {
        if self.active_cues() is None {
            self
        } else {
            self.with_mode(
                match self.mode {
                    ModeView::Normal => ModeView::Select { cue_index: first, selected_cues: Seq::empty() },
                    ModeView::Select { .. } => self.mode,
                    ModeView::Edit { cursor, selected_cues } => ModeView::Select {
                        cue_index: cursor.cue_index,
                        selected_cues: edit_indices(selected_cues),
                    },
                },
            )
        }
    }

    /// The state once the edit mode is entered: from the normal mode at the
    /// end of `first` (the first active cue), editing it; from the select
    /// mode at the end of the current cue, editing the selected cues.
    pub open spec fn after_switch_to_edit(self, first: usize) -> AppStateView {
        match self.active_cues() {
            None => self,
            Some(c) => self.with_mode(
                match self.mode {
                    ModeView::Normal => ModeView::Edit {
                        cursor: cursor_at_end(c, first),
                        selected_cues: edit_cues_for(c, seq![first]),
                    },
                    ModeView::Select { cue_index, selected_cues } => ModeView::Edit {
                        cursor: cursor_at_end(c, cue_index),
                        selected_cues: edit_cues_for(c, selected_cues),
                    },
                    ModeView::Edit { .. } => self.mode,
                },
            ),
        }
    }

    /// The cues to be edited are cues of the document.
    pub open spec fn can_switch_to_edit(self, first: usize) -> bool {
        self.active_cues() matches Some(c) ==> (!(c is Empty) ==> match self.mode {
            ModeView::Normal => first < crate::app::deletion::cues_len(c),
            ModeView::Select { selected_cues, .. } => forall|k: int|
                0 <= k < selected_cues.len() ==> #[trigger] selected_cues[k] < crate::app::deletion::cues_len(c),
            ModeView::Edit { .. } => true,
        })
    }

    /// The state once the current cue's selection is toggled (select mode).
    pub open spec fn after_toggle_select_line(self) -> AppStateView {
        let s = self.normal_without_track();
        if s.active_cues() is None {
            s.with_mode(ModeView::Normal)
        } else {
            match s.mode {
                ModeView::Select { cue_index, selected_cues } => s.with_mode(ModeView::Select {
                    cue_index,
                    selected_cues: toggled(selected_cues, cue_index),
                }),
                _ => s,
            }
        }
    }

    /// Toggling all lines needs a track and an active document.
    pub open spec fn toggle_all_result(self) -> Result<(), Seq<char>> {
        if self.track is None {
            Err("No track found"@)
        } else if self.active_cues() is None {
            Err("No subtitle document found"@)
        } else {
            Ok(())
        }
    }

    /// The state once all lines are toggled: the select mode is entered, and
    /// every cue selected where none was, else none.
    pub open spec fn after_toggle_select_all_lines(self, first: usize) -> AppStateView {
        if self.track is None {
            self.with_mode(ModeView::Normal)
        } else {
            let s = self.after_switch_to_select(first);
            match (s.active_cues(), s.mode) {
                (Some(c), ModeView::Select { cue_index, selected_cues }) => s.with_mode(ModeView::Select {
                    cue_index,
                    selected_cues: if selected_cues.len() == 0 {
                        Seq::new(crate::app::deletion::cues_len(c), |i: int| i as usize)
                    } else {
                        Seq::empty()
                    },
                }),
                _ => s,
            }
        }
    }
}

impl App {
    /// Enters the select mode (see `after_switch_to_select`).
    pub fn switch_to_select_mode(&mut self) -> (r: Result<(), String>)
        requires
            old(self).wf(),
        ensures
            final(self).wf(),
            result_view(r) == old(self).state.deep_view().switch_result(),
            final(self).state.deep_view() == old(self).state.deep_view().after_switch_to_select(
                old(self).synchronizer.spec_first_active_cue(),
            ),
            final(self).keeps_engine(*old(self)),
    {
        if self.state.subtitle_documents.active_index().is_none() {
            return Err(String::from_str("No subtitle document found"));
        }
        let first = self.synchronizer.first_active_cue();
        match &self.state.app_mode {
            AppMode::Normal => {
                self.state.app_mode = AppMode::Select { cue_index: first, selected_cues: Vec::new() };
                assert(self.state.deep_view().mode->Select_selected_cues =~= Seq::<usize>::empty());
            },
            AppMode::Select { .. } => {},
            AppMode::Edit { cursor, selected_cues } => {
                let ci = cursor.cue_index;
                let idx = edit_index_list(selected_cues);
                self.state.app_mode = AppMode::Select { cue_index: ci, selected_cues: idx };
            },
        }
        Ok(())
    }

    /// Enters the edit mode (see `after_switch_to_edit`).
    pub fn switch_to_edit_mode(&mut self) -> (r: Result<(), String>)
        requires
            old(self).wf(),
            old(self).state.deep_view().can_switch_to_edit(old(self).synchronizer.spec_first_active_cue()),
        ensures
            final(self).wf(),
            result_view(r) == old(self).state.deep_view().switch_result(),
            final(self).state.deep_view() == old(self).state.deep_view().after_switch_to_edit(
                old(self).synchronizer.spec_first_active_cue(),
            ),
            final(self).keeps_engine(*old(self)),
    {
        let i = match self.state.subtitle_documents.active_index() {
            Some(i) => i,
            None => return Err(String::from_str("No subtitle document found")),
        };
        let first = self.synchronizer.first_active_cue();
        let cues = &self.state.subtitle_documents.documents[i].state.document.cues;
        let ghost c = cues.deep_view();
        match &self.state.app_mode {
            AppMode::Normal => {
                let content = cues.single(first);
                let cursor = Cursor::new(first, cues.cue_len(first));
                let sel = vec![EditCue { index: first, original_content: content }];
                assert(sel.deep_view() =~= edit_cues_for(c, seq![first]));
                self.state.app_mode = AppMode::Edit { cursor, selected_cues: sel };
            },
            AppMode::Select { cue_index, selected_cues } => {
                let cursor = Cursor::new(*cue_index, cues.cue_len(*cue_index));
                let sel = edit_cues_of(cues, selected_cues);
                self.state.app_mode = AppMode::Edit { cursor, selected_cues: sel };
            },
            AppMode::Edit { .. } => {},
        }
        Ok(())
    }

    /// Selects the current cue where it is not selected, else takes it out of
    /// the selection (select mode only).
    pub fn toggle_select_line(&mut self)
        requires
            old(self).wf(),
        ensures
            final(self).wf(),
            final(self).state.deep_view() == old(self).state.deep_view().after_toggle_select_line(),
            final(self).keeps_engine(*old(self)),
    {
        if self.state.track.is_none() {
            self.switch_to_normal_mode();
        }
        if self.state.subtitle_documents.active_index().is_none() {
            self.switch_to_normal_mode();
            return;
        }
        match &mut self.state.app_mode {
            AppMode::Select { cue_index, selected_cues } => toggle_in(selected_cues, *cue_index),
            _ => {},
        }
    }

    /// Enters the select mode, then selects every cue where none is
    /// selected, else clears the selection.
    pub fn toggle_select_all_lines(&mut self) -> (r: Result<(), String>)
        requires
            old(self).wf(),
        ensures
            final(self).wf(),
            result_view(r) == old(self).state.deep_view().toggle_all_result(),
            final(self).state.deep_view() == old(self).state.deep_view().after_toggle_select_all_lines(
                old(self).synchronizer.spec_first_active_cue(),
            ),
            final(self).keeps_engine(*old(self)),
    {
        if self.state.track.is_none() {
            self.switch_to_normal_mode();
            return Err(String::from_str("No track found"));
        }
        let r = self.switch_to_select_mode();
        if r.is_err() {
            return r;
        }
        let i = match self.state.subtitle_documents.active_index() {
            Some(i) => i,
            None => {
                self.switch_to_normal_mode();
                return Err(String::from_str("No subtitle document found"));
            },
        };
        let n = self.state.subtitle_documents.documents[i].state.document.cues.len();
        match &mut self.state.app_mode {
            AppMode::Select { selected_cues, .. } => {
                if selected_cues.len() == 0 {
                    *selected_cues = all_indices(n);
                } else {
                    *selected_cues = Vec::new();
                    assert(selected_cues@ =~= Seq::<usize>::empty());
                }
            },
            _ => {},
        }
        Ok(())
    }
}

/// The indices of the edited cues.
fn edit_index_list(v: &Vec<EditCue>) -> (r: Vec<usize>)
    ensures
        r@ == edit_indices(v.deep_view()),
{
    let mut r: Vec<usize> = Vec::new();
    let mut i: usize = 0;
    while i < v.len()
        invariant
            i <= v@.len(),
            r@ == edit_indices(v.deep_view()).take(i as int),
        decreases v@.len() - i,
    {
        r.push(v[i].index);
        i = i + 1;
        assert(r@ =~= edit_indices(v.deep_view()).take(i as int));
    }
    assert(edit_indices(v.deep_view()).take(v@.len() as int) =~= edit_indices(v.deep_view()));
    r
}

/// The edited cues for the selected indices.
fn edit_cues_of(cues: &crate::cues::SubtitleCues, sel: &Vec<usize>) -> (r: Vec<EditCue>)
    requires
        !(cues.deep_view() is Empty) ==> forall|k: int| 0 <= k < sel@.len() ==> #[trigger] sel@[k] < cues.spec_len(),
    ensures
        r.deep_view() == edit_cues_for(cues.deep_view(), sel@),
{
    let mut r: Vec<EditCue> = Vec::new();
    let mut i: usize = 0;
    while i < sel.len()
        invariant
            i <= sel@.len(),
            !(cues.deep_view() is Empty) ==> forall|k: int| 0 <= k < sel@.len() ==> #[trigger] sel@[k] < cues.spec_len(),
            r.deep_view() == edit_cues_for(cues.deep_view(), sel@).take(i as int),
        decreases sel@.len() - i,
    {
        let x = sel[i];
        let content = cues.single(x);
        let ghost before = r.deep_view();
        r.push(EditCue { index: x, original_content: content });
        i = i + 1;
        assert(r.deep_view() =~= edit_cues_for(cues.deep_view(), sel@).take(i as int)) by {
            assert(r.deep_view() =~= before.push(EditCueView { index: x, original_content: single_of(cues.deep_view(), x as int) }));
        }
    }
    assert(edit_cues_for(cues.deep_view(), sel@).take(sel@.len() as int) =~= edit_cues_for(cues.deep_view(), sel@));
    r
}

/// 0, 1, ..., `n - 1`.
fn all_indices(n: usize) -> (r: Vec<usize>)
    ensures
        r@ == Seq::new(n as nat, |i: int| i as usize),
{
    let mut r: Vec<usize> = Vec::new();
    let mut i: usize = 0;
    while i < n
        invariant
            i <= n,
            r@ == Seq::new(i as nat, |k: int| k as usize),
        decreases n - i,
    {
        r.push(i);
        i = i + 1;
        assert(r@ =~= Seq::new(i as nat, |k: int| k as usize));
    }
    r
}

/// Takes `x` out of the selection (its first occurrence) where it is
/// selected, else adds it at the end.
fn toggle_in(v: &mut Vec<usize>, x: usize)
    ensures
        final(v)@ == toggled(old(v)@, x),
{
    let ghost s = v@;
    let n = v.len();
    let mut p: usize = 0;
    while p < n && v[p] != x
        invariant
            v@ == s,
            n == s.len(),
            p <= n,
            forall|q: int| 0 <= q < p ==> s[q] != x,
        decreases n - p,
    {
        p = p + 1;
    }
    if p < n {
        proof {
            assert(s.contains(x));
            let c = first_pos(s, x);
            assert(0 <= c < s.len() && s[c] == x && forall|q: int| 0 <= q < c ==> s[q] != x);
            if c < p {
                assert(s[c] != x);
            } else if c > p {
                assert(s[p as int] != x);
            }
        }
        v.remove(p);
    } else {
        assert(!s.contains(x));
        v.push(x);
    }
}

/// Toggling the current cue's selection twice gives back the same cues
/// selected (as many times each), where no cue was selected twice.
pub proof fn law_toggle_select_line_twice(s: AppStateView)
    requires
        s.track is Some,
        s.active_cues() is Some,
        s.mode matches ModeView::Select { selected_cues, .. } && selected_cues.no_duplicates(),
    ensures
        s.after_toggle_select_line().after_toggle_select_line().mode matches ModeView::Select { cue_index, selected_cues }
            && cue_index == s.mode->Select_cue_index
            && selected_cues.to_multiset() == s.mode->Select_selected_cues.to_multiset(),
{
    let x = s.mode->Select_cue_index;
    let sel = s.mode->Select_selected_cues;
    let t1 = toggled(sel, x);
    if sel.contains(x) {
        let p = first_pos(sel, x);
        assert(0 <= p < sel.len() && sel[p] == x && forall|q: int| 0 <= q < p ==> sel[q] != x);
        assert(!t1.contains(x)) by {
            if t1.contains(x) {
                let k = choose|k: int| 0 <= k < t1.len() && t1[k] == x;
                if k < p {
                    assert(sel[k] == x);
                } else {
                    assert(sel[k + 1] == x);
                }
            }
        }
        assert(t1.push(x).to_multiset() =~= sel.to_multiset());
    } else {
        let t2 = toggled(t1, x);
        assert(t1.contains(x)) by {
            assert(t1[sel.len() as int] == x);
        }
        let p = first_pos(t1, x);
        assert(0 <= p < t1.len() && t1[p] == x && forall|q: int| 0 <= q < p ==> t1[q] != x);
        assert(p == sel.len()) by {
            if p < sel.len() {
                assert(sel[p] == x);
            }
        }
        assert(t2 =~= sel);
    }
}

/// Entering the edit mode from the select mode and going back gives the
/// same current cue and selection.
pub proof fn law_edit_then_select_restores(s: AppStateView, first: usize)
    requires
        s.active_cues() is Some,
        s.mode is Select,
    ensures
        s.after_switch_to_edit(first).after_switch_to_select(first).mode == s.mode,
{
    let c = s.active_cues()->0;
    let sel = s.mode->Select_selected_cues;
    assert(edit_indices(edit_cues_for(c, sel)) =~= sel);
}

/// Toggling the current cue's selection (no cue selected twice) selects the
/// current cue exactly where it was not selected, keeps whether every other
/// cue is selected, and still selects no cue twice; the current cue stays.
pub proof fn law_toggle_select_line(s: AppStateView)
    requires
        s.track is Some,
        s.active_cues() is Some,
        s.mode matches ModeView::Select { selected_cues, .. } && selected_cues.no_duplicates(),
    ensures
        s.after_toggle_select_line().mode matches ModeView::Select { cue_index, selected_cues }
            && cue_index == s.mode->Select_cue_index
            && (selected_cues.contains(cue_index) <==> !s.mode->Select_selected_cues.contains(cue_index))
            && (forall|v: usize| v != cue_index ==> (#[trigger] selected_cues.contains(v) <==> s.mode->Select_selected_cues.contains(v)))
            && selected_cues.no_duplicates(),
{
    let x = s.mode->Select_cue_index;
    let sel = s.mode->Select_selected_cues;
    let t1 = toggled(sel, x);
    if sel.contains(x) {
        let p = first_pos(sel, x);
        assert(0 <= p < sel.len() && sel[p] == x && forall|q: int| 0 <= q < p ==> sel[q] != x);
        assert(!t1.contains(x)) by {
            if t1.contains(x) {
                let k = choose|k: int| 0 <= k < t1.len() && t1[k] == x;
                if k < p {
                    assert(sel[k] == x);
                } else {
                    assert(sel[k + 1] == x);
                }
            }
        }
        assert forall|v: usize| v != x implies (#[trigger] t1.contains(v) <==> sel.contains(v)) by {
            if sel.contains(v) {
                let k = choose|k: int| 0 <= k < sel.len() && sel[k] == v;
                if k < p {
                    assert(t1[k] == v);
                } else {
                    assert(k != p);
                    assert(t1[k - 1] == v);
                }
            }
            if t1.contains(v) {
                let k = choose|k: int| 0 <= k < t1.len() && t1[k] == v;
                if k < p {
                    assert(sel[k] == v);
                } else {
                    assert(sel[k + 1] == v);
                }
            }
        }
        assert forall|a: int, b: int| 0 <= a < t1.len() && 0 <= b < t1.len() && a != b implies t1[a] != t1[b] by {
            let a2 = if a < p { a } else { a + 1 };
            let b2 = if b < p { b } else { b + 1 };
            assert(t1[a] == sel[a2] && t1[b] == sel[b2]);
        }
    } else {
        assert(t1[sel.len() as int] == x);
        assert forall|v: usize| v != x implies (#[trigger] t1.contains(v) <==> sel.contains(v)) by {
            if sel.contains(v) {
                let k = choose|k: int| 0 <= k < sel.len() && sel[k] == v;
                assert(t1[k] == v);
            }
            if t1.contains(v) {
                let k = choose|k: int| 0 <= k < t1.len() && t1[k] == v;
                assert(sel[k] == v);
            }
        }
        assert forall|a: int, b: int| 0 <= a < t1.len() && 0 <= b < t1.len() && a != b implies t1[a] != t1[b] by {
            if a == sel.len() {
                assert(sel[b] != x);
            } else if b == sel.len() {
                assert(sel[a] != x);
            }
        }
    }
}

/// Entering the select mode from the normal mode starts at `first` with
/// nothing selected; entering the edit mode from the select mode edits the
/// selected cues, in order, each with its own cue as the content from before,
/// with the cursor at the end of the current cue's line; from the normal mode
/// it edits `first` alone, the cursor at the end of its line. Going back to the
/// select mode from there selects the edited cues again, at the cursor's cue.
pub proof fn law_switch_modes(s: AppStateView, first: usize)
    requires
        s.active_cues() is Some,
    ensures
        ({
            let c = s.active_cues()->0;
            match s.mode {
                ModeView::Normal => {
                    &&& s.after_switch_to_select(first).mode == (ModeView::Select { cue_index: first, selected_cues: Seq::empty() })
                    &&& s.after_switch_to_edit(first).mode matches ModeView::Edit { cursor, selected_cues }
                        && cursor.cue_index == first && cursor.active_column == line_len(c, first)
                        && cursor.target_column == line_len(c, first)
                        && selected_cues.len() == 1 && selected_cues[0].index == first
                        && selected_cues[0].original_content == single_of(c, first as int)
                },
                ModeView::Select { cue_index, selected_cues: sel } => {
                    &&& s.after_switch_to_select(first).mode == s.mode
                    &&& s.after_switch_to_edit(first).mode matches ModeView::Edit { cursor, selected_cues }
                        && cursor.cue_index == cue_index && cursor.active_column == line_len(c, cue_index)
                        && cursor.target_column == line_len(c, cue_index)
                        && selected_cues.len() == sel.len()
                        && (forall|k: int| 0 <= k < sel.len() ==> selected_cues[k].index == #[trigger] sel[k]
                            && selected_cues[k].original_content == single_of(c, sel[k] as int))
                },
                ModeView::Edit { cursor, selected_cues } => {
                    &&& s.after_switch_to_edit(first).mode == s.mode
                    &&& s.after_switch_to_select(first).mode matches ModeView::Select { cue_index, selected_cues: sel }
                        && cue_index == cursor.cue_index && sel.len() == selected_cues.len()
                        && forall|k: int| 0 <= k < sel.len() ==> sel[k] == (#[trigger] selected_cues[k]).index
                },
            }
        }),
        s.after_switch_to_select(first).documents == s.documents,
        s.after_switch_to_edit(first).documents == s.documents,
{
}

/// With a track and a document, toggling all lines enters the select mode
/// and selects every cue, in order, where none was selected; else it
/// selects none.
pub proof fn law_toggle_select_all_lines(s: AppStateView, first: usize)
    requires
        s.track is Some,
        s.active_cues() is Some,
        crate::app::deletion::cues_len(s.active_cues()->0) <= usize::MAX + 1,
    ensures
        s.after_toggle_select_all_lines(first).mode matches ModeView::Select { selected_cues, .. }
            && if s.after_switch_to_select(first).mode->Select_selected_cues.len() == 0 {
                selected_cues.len() == crate::app::deletion::cues_len(s.active_cues()->0)
                    && forall|k: int| 0 <= k < selected_cues.len() ==> #[trigger] selected_cues[k] == k
            } else {
                selected_cues.len() == 0
            },
        s.after_toggle_select_all_lines(first).documents == s.documents,
{
}

} // verus!

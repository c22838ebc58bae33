//! Edits made from the keyboard and recorded in the history: changes of
//! times (with the indices the cues end up at), deletions and typing.

use vstd::prelude::*;

use crate::app::history::with_history;
use crate::app::timing::{result_view, AllTimesEdit, CurrentTimeEdit};
use crate::app::App;
use crate::cues::{AlignedCue, Cue, CueItem, CuesView, SubtitleCues, TimedCue};
use crate::history::{ContentChangeView, CueContentChange, CueTimeChange, Edit, EditView, IndexedCueView, IndexedSubtitleCue};
use crate::cues::Line;
use crate::mode::{AppMode, ModeView};
use crate::app::deletion::{cues_len, selected_indices};
use crate::cues::single_of;
use crate::sort::sort_by_key;
use crate::state::{lemma_with_active_cues, lemma_with_active_state, AppStateView, DocumentStateView};

verus! {

// ---------------------------------------------------------------------------
// Changes of times.

/// The change that keeps cue `v`, at `i`, where and as it is.
pub open spec fn identity_change<T: TimedCue>(v: T::V, i: int) -> CueTimeChange {
    CueTimeChange {
        id: T::view_id(v),
        new_index: i as usize,
        old_index: i as usize,
        new_start: T::view_start(v),
        old_start: T::view_start(v),
        new_end: T::view_end(v),
        old_end: T::view_end(v),
    }
}

/// A change for each cue, keeping it where and as it is.
pub open spec fn identity_changes<T: TimedCue>(s: Seq<T::V>) -> Seq<CueTimeChange> {
    Seq::new(s.len(), |i: int| identity_change::<T>(s[i], i))
}

/// The first place, from `k` on, of a cue with identity `id`.
pub open spec fn find_id<T: CueItem>(s: Seq<T::V>, k: int, id: u128) -> Option<int>
    decreases s.len() - k,
{
    if 0 <= k < s.len() {
        if T::view_id(s[k]) == id {
            Some(k)
        } else {
            find_id::<T>(s, k + 1, id)
        }
    } else {
        None
    }
}

/// The change completed with where the cue of its identity is in `after`,
/// and its times there (unchanged where no cue has its identity).
pub open spec fn completed<T: TimedCue>(c: CueTimeChange, after: Seq<T::V>) -> CueTimeChange {
    match find_id::<T>(after, 0, c.id) {
        Some(i) => CueTimeChange {
            new_index: i as usize,
            new_start: T::view_start(after[i]),
            new_end: T::view_end(after[i]),
            ..c
        },
        None => c,
    }
}

/// Each change completed from `after`.
pub open spec fn complete_changes<T: TimedCue>(ch: Seq<CueTimeChange>, after: Seq<T::V>) -> Seq<CueTimeChange> {
    ch.map_values(|c: CueTimeChange| completed::<T>(c, after))
}

/// `identity_changes` for cues with times; none for others.
pub open spec fn identity_changes_in(c: CuesView) -> Seq<CueTimeChange> {
    match c {
        CuesView::Word(s) => identity_changes::<AlignedCue>(s),
        CuesView::Cue(s) => identity_changes::<Cue>(s),
        _ => Seq::empty(),
    }
}

/// `complete_changes` from cues with times; unchanged for others.
pub open spec fn complete_changes_in(ch: Seq<CueTimeChange>, c: CuesView) -> Seq<CueTimeChange> {
    match c {
        CuesView::Word(s) => complete_changes::<AlignedCue>(ch, s),
        CuesView::Cue(s) => complete_changes::<Cue>(ch, s),
        _ => ch,
    }
}

fn identity_changes_exec<T: TimedCue>(cues: &Vec<T>) -> (r: Vec<CueTimeChange>)
    ensures
        r@ == identity_changes::<T>(cues.deep_view()),
{
    let mut r: Vec<CueTimeChange> = Vec::new();
    let mut i: usize = 0;
    while i < cues.len()
        invariant
            i <= cues@.len(),
            r@ == identity_changes::<T>(cues.deep_view()).take(i as int),
        decreases cues@.len() - i,
    {
        let c = &cues[i];
        let st = c.start();
        let en = c.end();
        r.push(CueTimeChange { id: c.id(), new_index: i, old_index: i, new_start: st, old_start: st, new_end: en, old_end: en });
        i = i + 1;
        assert(r@ =~= identity_changes::<T>(cues.deep_view()).take(i as int));
    }
    assert(identity_changes::<T>(cues.deep_view()).take(cues@.len() as int) =~= identity_changes::<T>(cues.deep_view()));
    r
}

fn find_id_exec<T: TimedCue>(cues: &Vec<T>, id: u128) -> (r: Option<usize>)
    ensures
        r matches Some(j) ==> find_id::<T>(cues.deep_view(), 0, id) == Some(j as int) && j < cues@.len(),
        r is None ==> find_id::<T>(cues.deep_view(), 0, id) is None,
{
    let mut k: usize = 0;
    while k < cues.len()
        invariant
            k <= cues@.len(),
            find_id::<T>(cues.deep_view(), 0, id) == find_id::<T>(cues.deep_view(), k as int, id),
        decreases cues@.len() - k,
    {
        if cues[k].id() == id {
            return Some(k);
        }
        k = k + 1;
    }
    None
}

fn complete_changes_exec<T: TimedCue>(ch: &mut Vec<CueTimeChange>, after: &Vec<T>)
    ensures
        final(ch)@ == complete_changes::<T>(old(ch)@, after.deep_view()),
{
    let ghost c0 = ch@;
    let n = ch.len();
    let mut i: usize = 0;
    while i < n
        invariant
            n == c0.len(),
            ch@.len() == n,
            i <= n,
            forall|k: int| 0 <= k < i ==> #[trigger] ch@[k] == completed::<T>(c0[k], after.deep_view()),
            forall|k: int| i <= k < n ==> #[trigger] ch@[k] == c0[k],
        decreases n - i,
    {
        let c = ch[i];
        assert(ch@[i as int] == c0[i as int]);
        match find_id_exec(after, c.id) {
            Some(j) => {
                let a = &after[j];
                assert(find_id::<T>(after.deep_view(), 0, c.id) == Some(j as int));
                assert(a.deep_view() == after.deep_view()[j as int]);
                let nc = CueTimeChange { new_index: j, new_start: a.start(), new_end: a.end(), ..c };
                assert(nc == completed::<T>(c0[i as int], after.deep_view()));
                ch.set(i, nc);
            },
            None => {
                assert(c == completed::<T>(c0[i as int], after.deep_view()));
            },
        }
        i = i + 1;
    }
    assert(ch@ =~= complete_changes::<T>(c0, after.deep_view()));
}

impl AppStateView {
    /// The state with the active document marked as (un)saved.
    pub open spec fn with_active_unsaved(self, flag: bool) -> AppStateView {
        match self.active_doc() {
            Some(st) => self.with_active_state(DocumentStateView { unsaved_changes: flag, ..st }),
            None => self,
        }
    }

    /// The state once every cue's times are changed and the change recorded:
    /// a change per cue, from where and how it was to where and how the cue
    /// of its identity is afterwards; the document has unsaved changes.
    pub open spec fn after_shift_all_recorded(self, e: AllTimesEdit) -> AppStateView {
        match self.active_doc() {
            None => self,
            Some(st) => {
                let ch0 = identity_changes_in(st.document.cues);
                let s2 = self.with_active_unsaved(true).after_all_times_edit(e);
                let ch = complete_changes_in(ch0, s2.active_cues()->0);
                s2.after_push_to_history(EditView::EditCueTimes { changes: ch })
            },
        }
    }
}

impl App {
    /// Marks the active document as (un)saved.
    pub fn set_active_unsaved(&mut self, flag: bool)
        requires
            old(self).wf(),
        ensures
            final(self).wf(),
            final(self).state.deep_view() == old(self).state.deep_view().with_active_unsaved(flag),
            final(self).keeps_engine(*old(self)),
    {
        let ghost s = self.state.deep_view();
        match self.state.subtitle_documents.active_index() {
            Some(i) => {
                self.state.subtitle_documents.documents[i].state.unsaved_changes = flag;
                proof {
                    let st = s.active_doc()->0;
                    lemma_with_active_state(s, DocumentStateView { unsaved_changes: flag, ..st });
                    assert(self.state.deep_view().documents.entries =~= s.with_active_unsaved(flag).documents.entries);
                }
            },
            None => {},
        }
    }

    /// A change per cue of the active document (with times), keeping it.
    fn active_identity_changes(&self) -> (r: Vec<CueTimeChange>)
        requires
            self.wf(),
            self.state.deep_view().active_cues() is Some,
        ensures
            r@ == identity_changes_in(self.state.deep_view().active_cues()->0),
    {
        let i = match self.state.subtitle_documents.active_index() {
            Some(i) => i,
            None => return Vec::new(),
        };
        match &self.state.subtitle_documents.documents[i].state.document.cues {
            SubtitleCues::Word(c) => identity_changes_exec(c),
            SubtitleCues::Cue(c) => identity_changes_exec(c),
            _ => Vec::new(),
        }
    }

    /// The changes completed from the active document's cues.
    fn complete_from_active(&self, ch: &mut Vec<CueTimeChange>)
        requires
            self.wf(),
            self.state.deep_view().active_cues() is Some,
        ensures
            final(ch)@ == complete_changes_in(old(ch)@, self.state.deep_view().active_cues()->0),
    {
        let i = match self.state.subtitle_documents.active_index() {
            Some(i) => i,
            None => return,
        };
        match &self.state.subtitle_documents.documents[i].state.document.cues {
            SubtitleCues::Word(c) => complete_changes_exec(ch, c),
            SubtitleCues::Cue(c) => complete_changes_exec(ch, c),
            _ => {},
        }
    }

    /// Changes every cue's times and records the change in the history (see
    /// `after_shift_all_recorded`).
    pub fn shift_all_times_recorded(&mut self, e: AllTimesEdit)
        requires
            old(self).wf(),
            old(self).state.deep_view().can_edit_all_times(e),
        ensures
            final(self).wf(),
            final(self).state.deep_view() == old(self).state.deep_view().after_shift_all_recorded(e),
            final(self).keeps_engine(*old(self)),
    {
        if self.state.subtitle_documents.active_index().is_none() {
            return;
        }
        let mut changes = self.active_identity_changes();
        self.set_active_unsaved(true);
        assert(self.state.deep_view().active_cues() == old(self).state.deep_view().active_cues());
        self.edit_all_times(e);
        self.complete_from_active(&mut changes);
        let _ = self.push_to_history(Edit::EditCueTimes { changes });
    }
}

/// The change keeping cue `i` of `c` (with times) where and as it is; none
/// for cues without times.
pub open spec fn single_change_in(c: CuesView, i: int) -> Seq<CueTimeChange> {
    match c {
        CuesView::Word(s) => seq![identity_change::<AlignedCue>(s[i], i)],
        CuesView::Cue(s) => seq![identity_change::<Cue>(s[i], i)],
        _ => Seq::empty(),
    }
}

impl AppStateView {
    /// The state once the current cue's times are edited and the change
    /// recorded: the document is marked unsaved first; where the edit goes
    /// through, the change from where and how the cue was to where and how
    /// it is afterwards is pushed.
    pub open spec fn after_edit_current_recorded(self, e: CurrentTimeEdit) -> AppStateView {
        match self.active_doc() {
            None => self,
            Some(st) => {
                let ch0 = single_change_in(st.document.cues, self.current_index() as int);
                let s1 = self.with_active_unsaved(true);
                if s1.time_edit_result(e) is Err {
                    s1
                } else {
                    let s2 = s1.after_current_time_edit(e);
                    s2.after_push_to_history(EditView::EditCueTimes { changes: complete_changes_in(ch0, s2.active_cues()->0) })
                }
            },
        }
    }

    /// The current cue is a cue of the timed document, and the edit stays
    /// within bounds.
    pub open spec fn can_edit_current_recorded(self, e: CurrentTimeEdit) -> bool {
        &&& self.can_edit_current_times(e)
        &&& self.current_in_timed()
    }

    /// Where the document has times, the current cue is one of its cues.
    pub open spec fn current_in_timed(self) -> bool {
        self.active_cues() matches Some(c) ==> ((c is Word || c is Cue) ==> self.current_index() < cues_len(c))
    }
}

impl App {
    /// A change keeping the current cue (with times), where and as it is.
    fn current_identity_change(&self) -> (r: Vec<CueTimeChange>)
        requires
            self.wf(),
            self.state.deep_view().active_cues() is Some,
            self.state.deep_view().current_in_timed(),
        ensures
            r@ == single_change_in(self.state.deep_view().active_cues()->0, self.state.deep_view().current_index() as int),
    {
        let i = match self.state.subtitle_documents.active_index() {
            Some(i) => i,
            None => return Vec::new(),
        };
        let ci = match &self.state.app_mode {
            AppMode::Normal => 0,
            AppMode::Select { cue_index, .. } => *cue_index,
            AppMode::Edit { cursor, .. } => cursor.cue_index,
        };
        match &self.state.subtitle_documents.documents[i].state.document.cues {
            SubtitleCues::Word(c) => {
                let x = &c[ci];
                let st = x.start();
                let en = x.end();
                let r = vec![CueTimeChange { id: x.id(), new_index: ci, old_index: ci, new_start: st, old_start: st, new_end: en, old_end: en }];
                assert(r@ =~= single_change_in(self.state.deep_view().active_cues()->0, ci as int));
                r
            },
            SubtitleCues::Cue(c) => {
                let x = &c[ci];
                let st = x.start();
                let en = x.end();
                let r = vec![CueTimeChange { id: x.id(), new_index: ci, old_index: ci, new_start: st, old_start: st, new_end: en, old_end: en }];
                assert(r@ =~= single_change_in(self.state.deep_view().active_cues()->0, ci as int));
                r
            },
            _ => {
                let r: Vec<CueTimeChange> = Vec::new();
                assert(r@ =~= single_change_in(self.state.deep_view().active_cues()->0, ci as int));
                r
            },
        }
    }

    /// Edits the current cue's times and records the change (see
    /// `after_edit_current_recorded`).
    pub fn edit_current_times_recorded(&mut self, e: CurrentTimeEdit) -> (r: Result<(), String>)
        requires
            old(self).wf(),
            old(self).state.deep_view().can_edit_current_recorded(e),
        ensures
            final(self).wf(),
            result_view(r) == old(self).state.deep_view().time_edit_result(e),
            final(self).state.deep_view() == old(self).state.deep_view().after_edit_current_recorded(e),
            final(self).keeps_engine(*old(self)),
    {
        if self.state.subtitle_documents.active_index().is_none() {
            return self.edit_current_times(e);
        }
        let mut changes = self.current_identity_change();
        self.set_active_unsaved(true);
        let r = self.edit_current_times(e);
        if r.is_err() {
            return r;
        }
        self.complete_from_active(&mut changes);
        let _ = self.push_to_history(Edit::EditCueTimes { changes });
        r
    }
}

// ---------------------------------------------------------------------------
// Deletions.

/// The selected cues, each with its index and its cue alone.
pub open spec fn indexed_for(c: CuesView, sel: Seq<usize>) -> Seq<IndexedCueView> {
    sel.map_values(|i: usize| IndexedCueView { index: i, subtitle_cue: single_of(c, i as int) })
}

impl AppStateView {
    /// The state once the selected cues are deleted and the deletion
    /// recorded with the deleted cues; the document has unsaved changes.
    pub open spec fn after_delete_selected_recorded(self) -> AppStateView {
        match self.active_cues() {
            None => self.with_mode(ModeView::Normal),
            Some(c) => {
                let items = indexed_for(c, selected_indices(self.mode));
                self.after_delete_selected_lines().with_active_unsaved(true).after_push_to_history(
                    EditView::DeleteCue { cues: items },
                )
            },
        }
    }

    /// The selected cues are cues of the document and can be deleted.
    pub open spec fn can_delete_selected_recorded(self) -> bool {
        &&& self.can_delete_selected_lines()
        &&& self.active_cues() matches Some(c) ==> (!(c is Empty) ==> forall|k: int|
            0 <= k < selected_indices(self.mode).len() ==> #[trigger] selected_indices(self.mode)[k] < cues_len(c))
    }
}

fn indexed_cues_of(cues: &SubtitleCues, sel: &Vec<usize>) -> (r: Vec<IndexedSubtitleCue>)
    requires
        !(cues.deep_view() is Empty) ==> forall|k: int| 0 <= k < sel@.len() ==> #[trigger] sel@[k] < cues.spec_len(),
    ensures
        r.deep_view() == indexed_for(cues.deep_view(), sel@),
{
    let mut r: Vec<IndexedSubtitleCue> = Vec::new();
    let mut i: usize = 0;
    while i < sel.len()
        invariant
            i <= sel@.len(),
            !(cues.deep_view() is Empty) ==> forall|k: int| 0 <= k < sel@.len() ==> #[trigger] sel@[k] < cues.spec_len(),
            r.deep_view() == indexed_for(cues.deep_view(), sel@).take(i as int),
        decreases sel@.len() - i,
    {
        let x = sel[i];
        let content = cues.single(x);
        let ghost before = r.deep_view();
        r.push(IndexedSubtitleCue { index: x, subtitle_cue: content });
        i = i + 1;
        assert(r.deep_view() =~= indexed_for(cues.deep_view(), sel@).take(i as int)) by {
            assert(r.deep_view() =~= before.push(IndexedCueView { index: x, subtitle_cue: single_of(cues.deep_view(), x as int) }));
        }
    }
    assert(indexed_for(cues.deep_view(), sel@).take(sel@.len() as int) =~= indexed_for(cues.deep_view(), sel@));
    r
}

fn selected_index_list(mode: &AppMode) -> (r: Vec<usize>)
    ensures
        r@ == selected_indices(mode.deep_view()),
{
    match mode {
        AppMode::Normal => {
            let r: Vec<usize> = Vec::new();
            assert(r@ =~= Seq::<usize>::empty());
            r
        },
        AppMode::Select { selected_cues, .. } => {
            let r = selected_cues.clone();
            assert(r@ =~= selected_cues@);
            r
        },
        AppMode::Edit { selected_cues, .. } => {
            let mut r: Vec<usize> = Vec::new();
            let mut i: usize = 0;
            while i < selected_cues.len()
                invariant
                    i <= selected_cues@.len(),
                    r@ == crate::app::edit_indices(selected_cues.deep_view()).take(i as int),
                decreases selected_cues@.len() - i,
            {
                r.push(selected_cues[i].index);
                i = i + 1;
                assert(r@ =~= crate::app::edit_indices(selected_cues.deep_view()).take(i as int));
            }
            assert(crate::app::edit_indices(selected_cues.deep_view()).take(selected_cues@.len() as int)
                =~= crate::app::edit_indices(selected_cues.deep_view()));
            r
        },
    }
}

impl App {
    /// Deletes the selected cues and records the deletion (see
    /// `after_delete_selected_recorded`).
    pub fn delete_selected_recorded(&mut self)
        requires
            old(self).wf(),
            old(self).state.deep_view().can_delete_selected_recorded(),
        ensures
            final(self).wf(),
            final(self).state.deep_view() == old(self).state.deep_view().after_delete_selected_recorded(),
            final(self).keeps_engine(*old(self)),
    {
        let i = match self.state.subtitle_documents.active_index() {
            Some(i) => i,
            None => {
                self.switch_to_normal_mode();
                return;
            },
        };
        let sel = selected_index_list(&self.state.app_mode);
        let items = indexed_cues_of(&self.state.subtitle_documents.documents[i].state.document.cues, &sel);
        self.delete_selected_lines();
        self.set_active_unsaved(true);
        let _ = self.push_to_history(Edit::DeleteCue { cues: items });
    }
}

// ---------------------------------------------------------------------------
// Typing.

/// The cues of `c` with the text of cue `i` edited (see `view_text_edited`).
pub open spec fn edited_in(c: CuesView, i: int, ch: Option<char>) -> CuesView {
    match c {
        CuesView::Word(s) => CuesView::Word(s.update(i, AlignedCue::view_text_edited(s[i], ch))),
        CuesView::Cue(s) => CuesView::Cue(s.update(i, Cue::view_text_edited(s[i], ch))),
        CuesView::Line(s) => CuesView::Line(s.update(i, Line::view_text_edited(s[i], ch))),
        CuesView::Empty => c,
    }
}

fn edit_at<T: CueItem>(v: &mut Vec<T>, i: usize, ch: Option<char>)
    requires
        i < old(v)@.len(),
    ensures
        final(v).deep_view() == old(v).deep_view().update(i as int, T::view_text_edited(old(v).deep_view()[i as int], ch)),
        final(v)@.len() == old(v)@.len(),
{
    let ghost before = v.deep_view();
    let c = &mut v[i];
    c.edit_last_text(ch);
    assert(v.deep_view() =~= before.update(i as int, T::view_text_edited(before[i as int], ch)));
}

impl AppStateView {
    /// The state once a character is typed (`Some`) or erased (`None`) at the
    /// end of the current cue's text and the change recorded with the cue
    /// before and after; the document is marked as saved.
    pub open spec fn after_type(self, ch: Option<char>) -> AppStateView {
        match self.active_cues() {
            None => self.with_mode(ModeView::Normal),
            Some(CuesView::Empty) => self,
            Some(c) => {
                let i = self.current_index() as int;
                let c2 = edited_in(c, i, ch);
                self.with_active_cues(c2).with_active_unsaved(false).after_push_to_history(
                    EditView::EditCueContent {
                        changes: seq![ContentChangeView { index: i as usize, old_content: single_of(c, i), new_content: single_of(c2, i) }],
                    },
                )
            },
        }
    }

    /// The current cue is a cue of the document.
    pub open spec fn can_type(self) -> bool {
        self.active_cues() matches Some(c) ==> (!(c is Empty) ==> self.current_index() < cues_len(c))
    }
}

impl App {
    /// Types `Some` character at the end of the current cue's text, or erases
    /// its last one for `None`, and records the change (see `after_type`).
    pub fn type_text(&mut self, ch: Option<char>)
        requires
            old(self).wf(),
            old(self).state.deep_view().can_type(),
        ensures
            final(self).wf(),
            final(self).state.deep_view() == old(self).state.deep_view().after_type(ch),
            final(self).keeps_engine(*old(self)),
    {
        let i = match self.state.subtitle_documents.active_index() {
            Some(i) => i,
            None => {
                self.switch_to_normal_mode();
                return;
            },
        };
        let ci = match &self.state.app_mode {
            AppMode::Normal => 0,
            AppMode::Select { cue_index, .. } => *cue_index,
            AppMode::Edit { cursor, .. } => cursor.cue_index,
        };
        let ghost s = self.state.deep_view();
        if self.state.subtitle_documents.documents[i].state.document.cues.is_empty_level() {
            return;
        }
        let cues = &mut self.state.subtitle_documents.documents[i].state.document.cues;
        let old_content = cues.single(ci);
        match cues {
            SubtitleCues::Word(v) => edit_at(v, ci, ch),
            SubtitleCues::Cue(v) => edit_at(v, ci, ch),
            SubtitleCues::Line(v) => edit_at(v, ci, ch),
            SubtitleCues::Empty => {},
        }
        let new_content = cues.single(ci);
        proof {
            let c2 = edited_in(s.active_cues()->0, ci as int, ch);
            crate::state::lemma_with_active_cues(s, c2);
            assert(self.state.deep_view().documents.entries =~= s.with_active_cues(c2).documents.entries);
        }
        self.set_active_unsaved(false);
        let changes = vec![CueContentChange { index: ci, old_content, new_content }];
        let ghost cv = changes.deep_view();
        assert(cv =~= seq![ContentChangeView {
            index: ci,
            old_content: single_of(s.active_cues()->0, ci as int),
            new_content: single_of(edited_in(s.active_cues()->0, ci as int, ch), ci as int),
        }]);
        let _ = self.push_to_history(Edit::EditCueContent { changes });
    }
}

// ---------------------------------------------------------------------------
// Undoing a recorded deletion.

/// `s` is in strictly increasing order.
pub open spec fn increasing(s: Seq<usize>) -> bool {
    forall|i: int, j: int| 0 <= i < j < s.len() ==> s[i] < s[j]
}

/// Removing one by one, the last index first, takes out the same cues
/// whatever is followed alongside.
proof fn lemma_removals_agree<A>(q: Seq<A>, idx: Seq<usize>, ci: usize, m: ModeView)
    ensures
        crate::app::deletion::remove_each_rev(q, idx, ci).0 == crate::app::deletion::delete_at_each_rev(q, m, idx).0,
    decreases idx.len(),
{
    if idx.len() > 0 {
        let x = idx.last();
        lemma_removals_agree(
            q.remove(x as int),
            idx.drop_last(),
            if x < ci { (ci - 1) as usize } else { ci },
            crate::app::deletion::mode_after_delete_at(m, x),
        );
    }
}

/// The recorded cues of an increasing selection are in increasing order of
/// index, and putting them back after removing them gives the cues back.
proof fn lemma_reinsert_selection<T: CueItem>(q: Seq<T::V>, c: CuesView, sel: Seq<usize>, ci: usize, m: ModeView, m2: ModeView)
    requires
        increasing(sel),
        forall|k: int| 0 <= k < sel.len() ==> #[trigger] sel[k] < q.len(),
        forall|i: int| 0 <= i < q.len() ==> #[trigger] T::view_of_kind(single_of(c, i)) == Some(seq![q[i]]),
    ensures
        crate::app::addition::sorted_items(indexed_for(c, sel)) == indexed_for(c, sel),
        crate::app::deletion::item_indices(indexed_for(c, sel)) == sel,
        crate::app::addition::insert_each::<T>(
            crate::app::deletion::remove_each_rev(q, sel, ci).0,
            m2,
            indexed_for(c, sel),
        ).0 == q,
{
    let items = indexed_for(c, sel);
    let key = crate::sort::key_fn::<IndexedSubtitleCue>();
    assert(crate::app::deletion::item_indices(items) =~= sel);
    assert(crate::sort::strictly_sorted_by(items, key)) by {
        assert forall|i: int, j: int| 0 <= i < j < items.len() implies key(items[i]) < key(items[j]) by {
            assert(items[i].index == sel[i] && items[j].index == sel[j]);
        }
    }
    crate::sort::lemma_sort_of_sorted(items, key);
    assert(crate::app::history::holds_cues_of::<T>(q, items)) by {
        assert forall|k: int| 0 <= k < items.len() implies {
            &&& (#[trigger] items[k]).index < q.len()
            &&& T::view_of_kind(items[k].subtitle_cue) matches Some(x)
            &&& x.len() > 0
            &&& x[0] == q[items[k].index as int]
        } by {
            assert(items[k].index == sel[k]);
            assert(T::view_of_kind(single_of(c, sel[k] as int)) == Some(seq![q[sel[k] as int]]));
        }
    }
    lemma_removals_agree(q, sel, ci, m);
    crate::app::history::lemma_insert_undoes_delete::<T>(q, m, items, m2);
}

/// Undoing the recorded deletion of the selected cues gives the cues back,
/// and redoing it then deletes them again, where the selection is in
/// increasing order (as that of all lines is).
pub proof fn law_undo_restores_deleted_selection(s: AppStateView)
    requires
        s.documents.wf(),
        s.track is Some,
        s.mode is Select,
        increasing(selected_indices(s.mode)),
        s.active_cues() matches Some(c) && forall|k: int|
            0 <= k < selected_indices(s.mode).len() ==> #[trigger] selected_indices(s.mode)[k] < cues_len(c),
    ensures
        s.after_delete_selected_recorded().after_undo().active_cues() == s.active_cues(),
        s.after_delete_selected_recorded().after_undo().after_redo().active_cues()
            == s.after_delete_selected_recorded().active_cues(),
{
    let c = s.active_cues()->0;
    let sel = selected_indices(s.mode);
    let ci = s.mode->Select_cue_index;
    let items = indexed_for(c, sel);
    let e = EditView::DeleteCue { cues: items };
    let (c2, m2) = crate::app::deletion::delete_selected_cues(c, s.mode);
    lemma_with_active_cues(s, c2);
    let t1 = s.with_active_cues(c2).with_mode(m2);
    assert(t1 == s.after_delete_selected_lines());
    let st1 = t1.active_doc()->0;
    let st2 = DocumentStateView { unsaved_changes: true, ..st1 };
    lemma_with_active_state(t1, st2);
    let t2 = t1.with_active_state(st2);
    let st3 = with_history(st2, st2.edit_history.undo.push(e), Seq::empty());
    lemma_with_active_state(t2, st3);
    let t3 = t2.with_active_state(st3);
    assert(t3 == s.after_delete_selected_recorded());
    assert(t3.active_doc() == Some(st3));
    assert(st3.edit_history.undo.last() == e);
    let st4 = with_history(st3, st3.edit_history.undo.drop_last(), st3.edit_history.redo);
    lemma_with_active_state(t3, st4);
    let v = t3.with_active_state(st4);
    assert(v.active_cues() == Some(c2));
    assert(v.track is Some);
    let (c3, m3) = crate::app::addition::insert_cues_in(c2, v.mode, crate::app::addition::sorted_items(items));
    lemma_with_active_cues(v, c3);
    let s2 = v.with_active_cues(c3).with_mode(m3);
    assert(s2 == v.after_undo_edit(e));
    match c {
        CuesView::Word(q) => {
            assert forall|i: int| 0 <= i < q.len() implies #[trigger] AlignedCue::view_of_kind(single_of(c, i)) == Some(seq![q[i]]) by {}
            lemma_reinsert_selection::<AlignedCue>(q, c, sel, ci, s.mode, v.mode);
        },
        CuesView::Cue(q) => {
            assert forall|i: int| 0 <= i < q.len() implies #[trigger] Cue::view_of_kind(single_of(c, i)) == Some(seq![q[i]]) by {}
            lemma_reinsert_selection::<Cue>(q, c, sel, ci, s.mode, v.mode);
        },
        CuesView::Line(q) => {
            assert forall|i: int| 0 <= i < q.len() implies #[trigger] Line::view_of_kind(single_of(c, i)) == Some(seq![q[i]]) by {}
            lemma_reinsert_selection::<Line>(q, c, sel, ci, s.mode, v.mode);
        },
        CuesView::Empty => {},
    }
    assert(s2.active_cues() == Some(c));
    let st5 = s2.active_doc()->0;
    let st6 = DocumentStateView {
        unsaved_changes: if st5.edit_history.undo.len() == 0 { false } else { st5.unsaved_changes },
        ..with_history(st5, st5.edit_history.undo, st5.edit_history.redo.push(e))
    };
    lemma_with_active_state(s2, st6);
    let u = s2.with_active_state(st6);
    assert(u == t3.after_undo());
    assert(u.active_doc() == Some(st6));
    assert(st6.edit_history.redo.last() == e);
    let st7 = with_history(st6, st6.edit_history.undo, st6.edit_history.redo.drop_last());
    lemma_with_active_state(u, st7);
    let w = u.with_active_state(st7);
    assert(w.active_cues() == Some(c));
    assert(w.track is Some);
    let idx = crate::app::deletion::sorted_indices(items);
    let (c4, m4) = crate::app::deletion::delete_cues_in(c, w.mode, idx);
    lemma_with_active_cues(w, c4);
    let s3 = w.with_active_cues(c4).with_mode(m4);
    assert(s3 == w.after_redo_edit(e));
    match c {
        CuesView::Word(q) => lemma_removals_agree(q, sel, ci, w.mode),
        CuesView::Cue(q) => lemma_removals_agree(q, sel, ci, w.mode),
        CuesView::Line(q) => lemma_removals_agree(q, sel, ci, w.mode),
        CuesView::Empty => {},
    }
    assert(c4 == c2);
    assert(s3.active_cues() == Some(c2));
    let st8 = s3.active_doc()->0;
    let st9 = DocumentStateView {
        unsaved_changes: true,
        ..with_history(st8, st8.edit_history.undo.push(e), st8.edit_history.redo)
    };
    lemma_with_active_state(s3, st9);
    assert(t3.active_cues() == Some(c2));
}

/// Undoing a typed (or erased) character gives the cues back as they were.
pub proof fn law_undo_restores_typed_text(s: AppStateView, ch: Option<char>)
    requires
        s.documents.wf(),
        s.active_cues() matches Some(c) && !(c is Empty) && s.current_index() < cues_len(c),
    ensures
        s.after_type(ch).after_undo().active_cues() == s.active_cues(),
{
    let c = s.active_cues()->0;
    let i = s.current_index() as int;
    let c2 = edited_in(c, i, ch);
    let e = EditView::EditCueContent {
        changes: seq![ContentChangeView { index: i as usize, old_content: single_of(c, i), new_content: single_of(c2, i) }],
    };
    lemma_with_active_cues(s, c2);
    let t1 = s.with_active_cues(c2);
    let st1 = t1.active_doc()->0;
    let st2 = DocumentStateView { unsaved_changes: false, ..st1 };
    lemma_with_active_state(t1, st2);
    let t2 = t1.with_active_state(st2);
    let st3 = with_history(st2, st2.edit_history.undo.push(e), Seq::empty());
    lemma_with_active_state(t2, st3);
    let t3 = t2.with_active_state(st3);
    assert(t3 == s.after_type(ch));
    assert(st3.edit_history.undo.last() == e);
    let st4 = with_history(st3, st3.edit_history.undo.drop_last(), st3.edit_history.redo);
    lemma_with_active_state(t3, st4);
    let v = t3.with_active_state(st4);
    assert(v.active_cues() == Some(c2));
    let ch_seq = seq![ContentChangeView { index: i as usize, old_content: single_of(c, i), new_content: single_of(c2, i) }];
    let c3 = crate::app::history::restore_contents_in(c2, ch_seq);
    lemma_with_active_cues(v, c3);
    assert(ch_seq.drop_last() =~= Seq::<ContentChangeView>::empty());
    assert(ch_seq.last() == ch_seq[0]);
    match c {
        CuesView::Word(q) => {
            assert(crate::app::history::restore_contents::<AlignedCue>(q.update(i, AlignedCue::view_text_edited(q[i], ch)), Seq::<ContentChangeView>::empty())
                == q.update(i, AlignedCue::view_text_edited(q[i], ch)));
            assert(q.update(i, AlignedCue::view_text_edited(q[i], ch)).update(i, q[i]) =~= q);
        },
        CuesView::Cue(q) => {
            assert(crate::app::history::restore_contents::<Cue>(q.update(i, Cue::view_text_edited(q[i], ch)), Seq::<ContentChangeView>::empty())
                == q.update(i, Cue::view_text_edited(q[i], ch)));
            assert(q.update(i, Cue::view_text_edited(q[i], ch)).update(i, q[i]) =~= q);
        },
        CuesView::Line(q) => {
            assert(crate::app::history::restore_contents::<Line>(q.update(i, Line::view_text_edited(q[i], ch)), Seq::<ContentChangeView>::empty())
                == q.update(i, Line::view_text_edited(q[i], ch)));
            assert(q.update(i, Line::view_text_edited(q[i], ch)).update(i, q[i]) =~= q);
        },
        CuesView::Empty => {},
    }
    assert(c3 == c);
    let s2 = v.with_active_cues(c3);
    assert(s2 == v.after_undo_edit(e));
    assert(s2.active_cues() == Some(c));
    let st5 = s2.active_doc()->0;
    let st6 = DocumentStateView {
        unsaved_changes: if st5.edit_history.undo.len() == 0 { false } else { st5.unsaved_changes },
        ..with_history(st5, st5.edit_history.undo, st5.edit_history.redo.push(e))
    };
    lemma_with_active_state(s2, st6);
}

// ---------------------------------------------------------------------------
// Undoing a recorded edit of the current cue's times.

/// No two cues of `s` have the same identity.
pub open spec fn ids_distinct<T: CueItem>(s: Seq<T::V>) -> bool {
    forall|a: int, b: int| 0 <= a < s.len() && 0 <= b < s.len() && a != b ==> T::view_id(s[a]) != T::view_id(s[b])
}

/// `ids_distinct` for the level of `c`.
pub open spec fn cue_ids_distinct(c: CuesView) -> bool {
    match c {
        CuesView::Word(s) => ids_distinct::<AlignedCue>(s),
        CuesView::Cue(s) => ids_distinct::<Cue>(s),
        CuesView::Line(s) => ids_distinct::<Line>(s),
        CuesView::Empty => true,
    }
}

/// Looking up, from `k` on, the identity of the cue at `j`, where no cue
/// between has it, finds `j`.
proof fn lemma_find_id_at<T: CueItem>(s: Seq<T::V>, k: int, j: int)
    requires
        0 <= k <= j < s.len(),
        forall|m: int| k <= m < j ==> T::view_id(#[trigger] s[m]) != T::view_id(s[j]),
    ensures
        find_id::<T>(s, k, T::view_id(s[j])) == Some(j),
    decreases j - k,
{
    if k < j {
        lemma_find_id_at::<T>(s, k + 1, j);
    }
}

/// The change recorded for an edit of cue `i`'s times, taken back, gives
/// the cues back, where no two cues have one identity.
proof fn lemma_undo_current_edit<T: TimedCue>(q: Seq<T::V>, i: int, e: CurrentTimeEdit, d: i64)
    requires
        0 <= i < q.len(),
        q.len() <= usize::MAX,
        ids_distinct::<T>(q),
    ensures
        crate::app::timing::times_set::<T>(
            crate::app::timing::current_edit_on::<T>(q, i, e, d).0,
            seq![completed::<T>(identity_change::<T>(q[i], i), crate::app::timing::current_edit_on::<T>(q, i, e, d).0).spec_inverse()],
        ) == q,
{
    crate::app::timing::lemma_current_edit_shape::<T>(q, i, e, d);
    let (q2, j) = crate::app::timing::current_edit_on::<T>(q, i, e, d);
    let a = T::view_start(q2[j]);
    let b = T::view_end(q2[j]);
    let x = q[i];
    T::lemma_with_times(x, a, b);
    let r = q.remove(i);
    assert(q2 == r.insert(j, T::view_with_times(x, a, b)));
    assert(T::view_id(q2[j]) == T::view_id(x));
    assert forall|m: int| 0 <= m < j implies T::view_id(#[trigger] q2[m]) != T::view_id(q2[j]) by {
        assert(q2[m] == r[m]);
        if m < i {
            assert(r[m] == q[m]);
        } else {
            assert(r[m] == q[m + 1]);
        }
    }
    lemma_find_id_at::<T>(q2, 0, j);
    let c = completed::<T>(identity_change::<T>(x, i), q2);
    assert(c.new_index == j && c.old_index == i);
    assert(c.old_start == T::view_start(x) && c.old_end == T::view_end(x));
    crate::app::timing::lemma_single_times_set::<T>(q2, c.spec_inverse());
    T::lemma_with_times(x, T::view_start(x), T::view_end(x));
    assert(T::view_with_times(q2[j], T::view_start(x), T::view_end(x)) == x);
    assert(q2.remove(j) =~= r);
    assert(r.insert(i, x) =~= q);
}

/// Undoing a recorded edit of the current cue's times (one that went
/// through) gives the cues back, where no two cues have one identity.
pub proof fn law_undo_restores_current_time_edit(s: AppStateView, e: CurrentTimeEdit)
    requires
        s.documents.wf(),
        s.can_edit_current_recorded(e),
        s.time_edit_result(e) is Ok,
        s.active_cues() matches Some(c) && cue_ids_distinct(c) && cues_len(c) <= usize::MAX,
    ensures
        s.after_edit_current_recorded(e).after_undo().active_cues() == s.active_cues(),
{
    let c = s.active_cues()->0;
    let i = s.current_index() as int;
    let ch0 = single_change_in(c, i);
    let st0 = s.active_doc()->0;
    let st1 = DocumentStateView { unsaved_changes: true, ..st0 };
    lemma_with_active_state(s, st1);
    let s1 = s.with_active_state(st1);
    assert(s1 == s.with_active_unsaved(true));
    assert(s1.active_cues() == Some(c));
    assert(s1.current_index() == s.current_index());
    assert(s1.time_edit_result(e) is Ok);
    let s2 = s1.after_current_time_edit(e);
    let d = s1.track_duration();
    match c {
        CuesView::Word(q) => {
            let (q2, j) = crate::app::timing::current_edit_on::<AlignedCue>(q, i, e, d);
            lemma_with_active_cues(s1, CuesView::Word(q2));
            lemma_undo_current_edit::<AlignedCue>(q, i, e, d);
        },
        CuesView::Cue(q) => {
            let (q2, j) = crate::app::timing::current_edit_on::<Cue>(q, i, e, d);
            lemma_with_active_cues(s1, CuesView::Cue(q2));
            lemma_undo_current_edit::<Cue>(q, i, e, d);
        },
        _ => {},
    }
    let c2 = s2.active_cues()->0;
    let ev = EditView::EditCueTimes { changes: complete_changes_in(ch0, c2) };
    let st2 = s2.active_doc()->0;
    let st3 = with_history(st2, st2.edit_history.undo.push(ev), Seq::empty());
    lemma_with_active_state(s2, st3);
    let t3 = s2.with_active_state(st3);
    assert(t3 == s.after_edit_current_recorded(e));
    assert(st3.edit_history.undo.last() == ev);
    let st4 = with_history(st3, st3.edit_history.undo.drop_last(), st3.edit_history.redo);
    lemma_with_active_state(t3, st4);
    let v = t3.with_active_state(st4);
    assert(v.active_cues() == Some(c2));
    let inv = crate::app::history::inverse_changes(complete_changes_in(ch0, c2));
    let vn = v.normal_without_track();
    let c3 = crate::app::timing::times_set_in(c2, inv);
    lemma_with_active_cues(vn, c3);
    let u2 = vn.with_active_cues(c3);
    assert(u2 == v.after_undo_edit(ev));
    match c {
        CuesView::Word(q) => {
            let q2 = crate::app::timing::current_edit_on::<AlignedCue>(q, i, e, d).0;
            assert(inv =~= seq![completed::<AlignedCue>(identity_change::<AlignedCue>(q[i], i), q2).spec_inverse()]);
        },
        CuesView::Cue(q) => {
            let q2 = crate::app::timing::current_edit_on::<Cue>(q, i, e, d).0;
            assert(inv =~= seq![completed::<Cue>(identity_change::<Cue>(q[i], i), q2).spec_inverse()]);
        },
        _ => {},
    }
    assert(c3 == c);
    assert(u2.active_cues() == Some(c));
    let st5 = u2.active_doc()->0;
    let st6 = DocumentStateView {
        unsaved_changes: if st5.edit_history.undo.len() == 0 { false } else { st5.unsaved_changes },
        ..with_history(st5, st5.edit_history.undo, st5.edit_history.redo.push(ev))
    };
    lemma_with_active_state(u2, st6);
}

// ---------------------------------------------------------------------------
// Undoing a recorded change of every cue's times.

/// Increasing values start at least at their place.
proof fn lemma_increasing_floor(a: Seq<usize>)
    requires
        forall|i: int, j: int| 0 <= i < j < a.len() ==> a[i] < a[j],
    ensures
        forall|m: int| 0 <= m < a.len() ==> (#[trigger] a[m]) >= m,
    decreases a.len(),
{
    if a.len() > 0 {
        let u = a.drop_last();
        assert forall|i: int, j: int| 0 <= i < j < u.len() implies u[i] < u[j] by {
            assert(u[i] == a[i] && u[j] == a[j]);
        }
        lemma_increasing_floor(u);
        assert forall|m: int| 0 <= m < a.len() implies (#[trigger] a[m]) >= m by {
            if m < u.len() {
                assert(u[m] == a[m]);
            } else if m > 0 {
                assert(u[m - 1] == a[m - 1]);
                assert(a[m - 1] < a[m]);
            }
        }
    }
}

/// Cues of `q`, each standing (with new times) at `pos` of its index in
/// `after`, put back from the changes recorded against `after`: each taken
/// back, the cues are `q` again, where no two cues have one identity.
proof fn lemma_undo_retimed<T: TimedCue>(q: Seq<T::V>, after: Seq<T::V>, pos: Seq<int>)
    requires
        q.len() <= usize::MAX,
        after.len() == q.len(),
        pos.len() == q.len(),
        ids_distinct::<T>(q),
        ids_distinct::<T>(after),
        forall|k: int| 0 <= k < q.len() ==> 0 <= #[trigger] pos[k] < after.len()
            && after[pos[k]] == T::view_with_times(q[k], T::view_start(after[pos[k]]), T::view_end(after[pos[k]])),
    ensures
        crate::app::timing::times_set::<T>(
            after,
            crate::app::history::inverse_changes(complete_changes::<T>(identity_changes::<T>(q), after)),
        ) == q,
{
    let n = q.len() as int;
    let ch = complete_changes::<T>(identity_changes::<T>(q), after);
    let inv = crate::app::history::inverse_changes(ch);
    assert forall|k: int| 0 <= k < n implies #[trigger] inv[k] == (CueTimeChange {
        id: T::view_id(q[k]),
        old_index: pos[k] as usize,
        new_index: k as usize,
        old_start: T::view_start(after[pos[k]]),
        old_end: T::view_end(after[pos[k]]),
        new_start: T::view_start(q[k]),
        new_end: T::view_end(q[k]),
    }) by {
        let p = pos[k];
        T::lemma_with_times(q[k], T::view_start(after[p]), T::view_end(after[p]));
        assert forall|m: int| 0 <= m < p implies T::view_id(#[trigger] after[m]) != T::view_id(after[p]) by {}
        lemma_find_id_at::<T>(after, 0, p);
        assert(ch[k] == completed::<T>(identity_change::<T>(q[k], k), after));
    }
    // Distinct places.
    assert forall|k: int, l: int| 0 <= k < n && 0 <= l < n && k != l implies pos[k] != pos[l] by {
        let a = T::view_start(after[pos[k]]);
        let b = T::view_end(after[pos[k]]);
        T::lemma_with_times(q[k], a, b);
        T::lemma_with_times(q[l], T::view_start(after[pos[l]]), T::view_end(after[pos[l]]));
    }
    let dkey = crate::sort::key_fn::<CueTimeChange>();
    let dd = crate::app::timing::changes_by_old_desc(inv);
    assert(crate::sort::distinct_keys(inv, dkey)) by {
        assert forall|i: int, j: int| 0 <= i < inv.len() && 0 <= j < inv.len() && i != j implies dkey(inv[i]) != dkey(inv[j]) by {
            assert(inv[i].old_index == pos[i] as usize && inv[j].old_index == pos[j] as usize);
        }
    }
    crate::sort::lemma_sort_sorted(inv, dkey);
    crate::sort::lemma_sort_len(inv, dkey);
    assert forall|a: int, b: int| 0 <= a < b < dd.len() implies dd[a].old_index > dd[b].old_index by {
        assert(dkey(dd[a]) < dkey(dd[b]));
    }
    // Each taken-out change is that of some cue of `q`.
    assert forall|a: int| 0 <= a < dd.len() implies exists|k: int| 0 <= k < n && #[trigger] dd[a] == inv[k] by {
        assert(inv.contains(dd[a]));
    }
    assert forall|a: int| 0 <= a < dd.len() implies dd[a].old_index < n by {
        let k = choose|k: int| 0 <= k < n && dd[a] == inv[k];
        assert(dd[a] == inv[k]);
    }
    crate::app::timing::lemma_desc_room(n, dd);
    crate::app::timing::lemma_take_out_desc::<T>(after, dd);
    let (rest, taken) = crate::app::timing::take_out_each::<T>(after, dd);
    assert forall|a: int| 0 <= a < taken.len() implies exists|k: int| 0 <= k < n && #[trigger] taken[a] == (k as usize, q[k])
        && dd[a] == inv[k] by {
        let k = choose|k: int| 0 <= k < n && dd[a] == inv[k];
        assert(dd[a] == inv[k]);
        let p = pos[k];
        T::lemma_with_times(q[k], T::view_start(after[p]), T::view_end(after[p]));
        T::lemma_with_times(q[k], T::view_start(q[k]), T::view_end(q[k]));
        assert(taken[a] == (k as usize, q[k]));
    }
    let pkey = crate::sort::key_fn::<crate::app::timing::PlacedCue<T>>();
    assert(crate::sort::distinct_keys(taken, pkey)) by {
        assert forall|i: int, j: int| 0 <= i < taken.len() && 0 <= j < taken.len() && i != j implies pkey(taken[i]) != pkey(taken[j]) by {
            let k = choose|k: int| 0 <= k < n && taken[i] == (k as usize, q[k]) && dd[i] == inv[k];
            let l = choose|l: int| 0 <= l < n && taken[j] == (l as usize, q[l]) && dd[j] == inv[l];
            assert(dd[i].old_index != dd[j].old_index) by {
                if i < j {
                    assert(dd[i].old_index > dd[j].old_index);
                } else {
                    assert(dd[j].old_index > dd[i].old_index);
                }
            }
            assert(k != l);
        }
    }
    let placed = sort_by_key_spec_of::<T>(taken);
    crate::sort::lemma_sort_sorted(taken, pkey);
    crate::sort::lemma_sort_len(taken, pkey);
    let idx = placed.map_values(|x: (usize, T::V)| x.0);
    assert forall|i: int, j: int| 0 <= i < j < idx.len() implies idx[i] < idx[j] by {
        assert(pkey(placed[i]) < pkey(placed[j]));
    }
    assert forall|i: int| 0 <= i < idx.len() implies idx[i] < n by {
        assert(taken.contains(placed[i]));
        let w = choose|w: int| 0 <= w < taken.len() && taken[w] == placed[i];
        let k = choose|k: int| 0 <= k < n && taken[w] == (k as usize, q[k]) && dd[w] == inv[k];
    }
    crate::app::history::lemma_increasing_room(n, idx);
    lemma_increasing_floor(idx);
    assert forall|m: int| 0 <= m < placed.len() implies #[trigger] placed[m] == (m as usize, q[m]) by {
        assert(idx[m] == placed[m].0);
        assert(taken.contains(placed[m]));
        let w = choose|w: int| 0 <= w < taken.len() && taken[w] == placed[m];
        let k = choose|k: int| 0 <= k < n && taken[w] == (k as usize, q[k]) && dd[w] == inv[k];
        assert(k == m);
    }
    crate::app::timing::lemma_put_in_own_places(q, placed);
    assert(rest =~= Seq::<T::V>::empty());
}

/// The cues placed in order of index.
spec fn sort_by_key_spec_of<T: TimedCue>(taken: Seq<(usize, T::V)>) -> Seq<(usize, T::V)> {
    sort_by_key(taken, crate::sort::key_fn::<crate::app::timing::PlacedCue<T>>())
}

/// Undoing the recorded change of every cue's times, for one level: the cues
/// left as they were, or changed by the edit and sorted.
proof fn lemma_undo_all_shift<T: TimedCue>(q: Seq<T::V>, e: AllTimesEdit, d: i64, changed: bool)
    requires
        q.len() <= usize::MAX,
        ids_distinct::<T>(q),
    ensures
        ({
            let after = if changed { crate::app::timing::all_shifted::<T>(q, e, d) } else { q };
            crate::app::timing::times_set::<T>(
                after,
                crate::app::history::inverse_changes(complete_changes::<T>(identity_changes::<T>(q), after)),
            ) == q
        }),
{
    let n = q.len() as int;
    if changed {
        let shifted = Seq::new(q.len(), |i: int| crate::app::timing::shifted_cue::<T>(q, i, e, d));
        let after = crate::app::timing::all_shifted::<T>(q, e, d);
        let key = crate::sort::key_fn::<T>();
        let g = |v: T::V| T::view_id(v) as int;
        assert forall|k: int| 0 <= k < n implies #[trigger] shifted[k] == T::view_with_times(
            q[k], T::view_start(shifted[k]), T::view_end(shifted[k])) && T::view_id(shifted[k]) == T::view_id(q[k]) by {
            crate::app::timing::lemma_shifted_form::<T>(q, k, e, d);
            T::lemma_with_times(q[k], T::view_start(shifted[k]), T::view_end(shifted[k]));
        }
        assert(crate::sort::distinct_keys(shifted, g)) by {
            assert forall|i: int, j: int| 0 <= i < shifted.len() && 0 <= j < shifted.len() && i != j implies g(shifted[i]) != g(shifted[j]) by {
                assert(T::view_id(shifted[i]) == T::view_id(q[i]) && T::view_id(shifted[j]) == T::view_id(q[j]));
            }
        }
        crate::sort::lemma_sort_keeps_all(shifted, key, g);
        crate::sort::lemma_sort_len(shifted, key);
        assert(ids_distinct::<T>(after)) by {
            assert forall|a: int, b: int| 0 <= a < after.len() && 0 <= b < after.len() && a != b implies T::view_id(after[a]) != T::view_id(after[b]) by {
                assert(g(after[a]) != g(after[b]));
            }
        }
        let pos = Seq::new(q.len(), |k: int| choose|p: int| 0 <= p < after.len() && after[p] == shifted[k]);
        assert forall|k: int| 0 <= k < n implies 0 <= #[trigger] pos[k] < after.len()
            && after[pos[k]] == T::view_with_times(q[k], T::view_start(after[pos[k]]), T::view_end(after[pos[k]])) by {
            assert(after.contains(shifted[k]));
        }
        lemma_undo_retimed::<T>(q, after, pos);
    } else {
        let pos = Seq::new(q.len(), |k: int| k);
        assert forall|k: int| 0 <= k < n implies 0 <= #[trigger] pos[k] < q.len()
            && q[pos[k]] == T::view_with_times(q[k], T::view_start(q[pos[k]]), T::view_end(q[pos[k]])) by {
            T::lemma_with_times(q[k], T::view_start(q[k]), T::view_end(q[k]));
        }
        lemma_undo_retimed::<T>(q, q, pos);
    }
}

/// Undoing a recorded change of every cue's times gives the cues back, where
/// no two cues have one identity.
pub proof fn law_undo_restores_all_times_edit(s: AppStateView, e: AllTimesEdit)
    requires
        s.documents.wf(),
        s.active_cues() matches Some(c) && cue_ids_distinct(c) && cues_len(c) <= usize::MAX,
    ensures
        s.after_shift_all_recorded(e).after_undo().active_cues() == s.active_cues(),
{
    let c = s.active_cues()->0;
    let st0 = s.active_doc()->0;
    let ch0 = identity_changes_in(c);
    let st1 = DocumentStateView { unsaved_changes: true, ..st0 };
    lemma_with_active_state(s, st1);
    let s1 = s.with_active_state(st1);
    assert(s1 == s.with_active_unsaved(true));
    assert(s1.active_cues() == Some(c));
    let s2 = s1.after_all_times_edit(e);
    let d = s1.track_duration();
    let changed = !(e.needs_track() && s1.track is None);
    match c {
        CuesView::Word(q) => {
            if changed {
                lemma_with_active_cues(s1, CuesView::Word(crate::app::timing::all_shifted::<AlignedCue>(q, e, d)));
            }
            lemma_undo_all_shift::<AlignedCue>(q, e, d, changed);
        },
        CuesView::Cue(q) => {
            if changed {
                lemma_with_active_cues(s1, CuesView::Cue(crate::app::timing::all_shifted::<Cue>(q, e, d)));
            }
            lemma_undo_all_shift::<Cue>(q, e, d, changed);
        },
        _ => {},
    }
    assert(s2.documents.wf());
    let c2 = s2.active_cues()->0;
    let ev = EditView::EditCueTimes { changes: complete_changes_in(ch0, c2) };
    let st2 = s2.active_doc()->0;
    let st3 = with_history(st2, st2.edit_history.undo.push(ev), Seq::empty());
    lemma_with_active_state(s2, st3);
    let t3 = s2.with_active_state(st3);
    assert(t3 == s.after_shift_all_recorded(e));
    assert(st3.edit_history.undo.last() == ev);
    let st4 = with_history(st3, st3.edit_history.undo.drop_last(), st3.edit_history.redo);
    lemma_with_active_state(t3, st4);
    let v = t3.with_active_state(st4);
    assert(v.active_cues() == Some(c2));
    let inv = crate::app::history::inverse_changes(complete_changes_in(ch0, c2));
    let vn = v.normal_without_track();
    let c3 = crate::app::timing::times_set_in(c2, inv);
    lemma_with_active_cues(vn, c3);
    let u2 = vn.with_active_cues(c3);
    assert(u2 == v.after_undo_edit(ev));
    assert(c3 == c);
    assert(u2.active_cues() == Some(c));
    let st5 = u2.active_doc()->0;
    let st6 = DocumentStateView {
        unsaved_changes: if st5.edit_history.undo.len() == 0 { false } else { st5.unsaved_changes },
        ..with_history(st5, st5.edit_history.undo, st5.edit_history.redo.push(ev))
    };
    lemma_with_active_state(u2, st6);
}

// ---------------------------------------------------------------------------
// What typing does.

/// Typing a character adds it at the end of the current cue's text, and
/// erasing takes the text's last character off (nothing where it is empty);
/// the cue keeps its identity and times, and the other cues are kept.
pub proof fn law_typing(s: AppStateView, ch: Option<char>)
    requires
        s.documents.wf(),
        s.active_cues() matches Some(c) && (c is Cue || c is Line) && s.current_index() < cues_len(c),
    ensures
        ({
            let i = s.current_index() as int;
            let typed = |t: Seq<char>| match ch {
                Some(x) => t.push(x),
                None => if t.len() > 0 { t.subrange(0, t.len() - 1) } else { t },
            };
            match (s.active_cues()->0, s.after_type(ch).active_cues()) {
                (CuesView::Cue(q), Some(CuesView::Cue(q2))) => {
                    &&& q2.len() == q.len()
                    &&& q2[i].content == typed(q[i].content)
                    &&& q2[i].id == q[i].id && q2[i].start == q[i].start && q2[i].end == q[i].end
                    &&& forall|k: int| 0 <= k < q.len() && k != i ==> q2[k] == #[trigger] q[k]
                },
                (CuesView::Line(q), Some(CuesView::Line(q2))) => {
                    &&& q2.len() == q.len()
                    &&& q2[i].content == typed(q[i].content)
                    &&& q2[i].id == q[i].id
                    &&& forall|k: int| 0 <= k < q.len() && k != i ==> q2[k] == #[trigger] q[k]
                },
                _ => false,
            }
        }),
{
    let c = s.active_cues()->0;
    let i = s.current_index() as int;
    let c2 = edited_in(c, i, ch);
    let e = EditView::EditCueContent {
        changes: seq![ContentChangeView { index: i as usize, old_content: single_of(c, i), new_content: single_of(c2, i) }],
    };
    lemma_with_active_cues(s, c2);
    let t1 = s.with_active_cues(c2);
    let st1 = t1.active_doc()->0;
    let st2 = DocumentStateView { unsaved_changes: false, ..st1 };
    lemma_with_active_state(t1, st2);
    let t2 = t1.with_active_state(st2);
    let st3 = with_history(st2, st2.edit_history.undo.push(e), Seq::empty());
    lemma_with_active_state(t2, st3);
    let t3 = t2.with_active_state(st3);
    assert(t3 == s.after_type(ch));
    assert(t3.active_cues() == Some(c2));
    match c {
        CuesView::Cue(q) => {
            let t = q[i].content;
            if ch is None && t.len() > 0 {
                assert(t.drop_last() =~= t.subrange(0, t.len() - 1));
            }
        },
        CuesView::Line(q) => {
            let t = q[i].content;
            if ch is None && t.len() > 0 {
                assert(t.drop_last() =~= t.subrange(0, t.len() - 1));
            }
        },
        _ => {},
    }
}

} // verus!

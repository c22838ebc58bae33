//! The edit history of the active document: recording edits, undoing and
//! redoing them, and what undoing gives back.

use vstd::prelude::*;

use crate::app::addition::{insert_cues_in, insert_each, inserts_fit, inserts_fit_in, sorted_items};
use crate::app::deletion::{delete_at_each_rev, delete_cues_in, item_indices, mode_after_delete_at, removals_fit, sorted_indices};
use crate::app::App;
use crate::cues::{AlignedCue, Cue, CueItem, CuesView, Line, SubtitleCues};
use crate::history::{ContentChangeView, CueContentChange, CueTimeChange, Edit, EditView, HistoryView, IndexedCueView, IndexedSubtitleCue};
use crate::mode::ModeView;
use crate::sort::{distinct_keys, key_fn, lemma_sort_sorted, sort_by_key, strictly_sorted_by};
use crate::state::{lemma_with_active_cues, lemma_with_active_cues_back, lemma_with_active_state, AppStateView, DocumentStateView};

verus! {

// ---------------------------------------------------------------------------
// Undoing and redoing one edit.

/// The cues given back the content from before each change (the first cue of
/// its old content, where that is of this level), in the order of the changes.
pub open spec fn restore_contents<T: CueItem>(s: Seq<T::V>, ch: Seq<ContentChangeView>) -> Seq<T::V>
    decreases ch.len(),
{
    if ch.len() == 0 {
        s
    } else {
        let r = restore_contents::<T>(s, ch.drop_last());
        let c = ch.last();
        match T::view_of_kind(c.old_content) {
            Some(o) => r.update(c.index as int, o[0]),
            None => r,
        }
    }
}

/// Each change of this level has an old cue and an index within the cues.
pub open spec fn restores_fit<T: CueItem>(s: Seq<T::V>, ch: Seq<ContentChangeView>) -> bool {
    forall|k: int| 0 <= k < ch.len() ==> (T::view_of_kind((#[trigger] ch[k]).old_content) matches Some(o) ==> o.len() > 0
        && ch[k].index < s.len())
}

fn restore_contents_exec<T: CueItem>(cues: &mut Vec<T>, ch: &Vec<CueContentChange>)
    requires
        restores_fit::<T>(old(cues).deep_view(), ch.deep_view()),
    ensures
        final(cues).deep_view() == restore_contents::<T>(old(cues).deep_view(), ch.deep_view()),
{
    let ghost s = cues.deep_view();
    let ghost all = ch.deep_view();
    let n = ch.len();
    let mut i: usize = 0;
    assert(all.take(0) =~= Seq::<ContentChangeView>::empty());
    while i < n
        invariant
            n == all.len(),
            all == ch.deep_view(),
            i <= n,
            restores_fit::<T>(s, all),
            cues@.len() == s.len(),
            cues.deep_view() == restore_contents::<T>(s, all.take(i as int)),
        decreases n - i,
    {
        proof {
            let pre = all.take(i as int + 1);
            assert(pre.drop_last() =~= all.take(i as int));
            assert(pre.last() == all[i as int]);
        }
        let c = &ch[i];
        assert(c.deep_view() == all[i as int]);
        match T::first_of(&c.old_content) {
            Some(x) => {
                let ghost before = cues.deep_view();
                cues.set(c.index, x);
                assert(cues.deep_view() =~= before.update(c.index as int, x.deep_view()));
            },
            None => {},
        }
        i = i + 1;
    }
    assert(all.take(n as int) =~= all);
}

/// `restore_contents` for each level of cues; nothing for no cues.
pub open spec fn restore_contents_in(c: CuesView, ch: Seq<ContentChangeView>) -> CuesView {
    match c {
        CuesView::Word(s) => CuesView::Word(restore_contents::<AlignedCue>(s, ch)),
        CuesView::Cue(s) => CuesView::Cue(restore_contents::<Cue>(s, ch)),
        CuesView::Line(s) => CuesView::Line(restore_contents::<Line>(s, ch)),
        CuesView::Empty => c,
    }
}

/// `restores_fit` for the level of `c`.
pub open spec fn restores_fit_in(c: CuesView, ch: Seq<ContentChangeView>) -> bool {
    match c {
        CuesView::Word(s) => restores_fit::<AlignedCue>(s, ch),
        CuesView::Cue(s) => restores_fit::<Cue>(s, ch),
        CuesView::Line(s) => restores_fit::<Line>(s, ch),
        CuesView::Empty => true,
    }
}

/// Each change of times taken back.
pub open spec fn inverse_changes(ch: Seq<CueTimeChange>) -> Seq<CueTimeChange> {
    ch.map_values(|c: CueTimeChange| c.spec_inverse())
}

fn inverse_all(ch: &Vec<CueTimeChange>) -> (r: Vec<CueTimeChange>)
    ensures
        r@ == inverse_changes(ch@),
{
    let mut r: Vec<CueTimeChange> = Vec::new();
    let mut i: usize = 0;
    while i < ch.len()
        invariant
            i <= ch@.len(),
            r@ == inverse_changes(ch@).take(i as int),
        decreases ch@.len() - i,
    {
        r.push(ch[i].inverse());
        i = i + 1;
        assert(r@ =~= inverse_changes(ch@).take(i as int));
    }
    assert(inverse_changes(ch@).take(ch@.len() as int) =~= inverse_changes(ch@));
    r
}

impl AppStateView {
    /// The state once an edit is taken back: old contents restored, changes
    /// of times inverted, deleted cues put back, inserted cues deleted.
    pub open spec fn after_undo_edit(self, e: EditView) -> AppStateView {
        match self.active_cues() {
            None => self,
            Some(c) => match e {
                EditView::EditCueContent { changes } => self.with_active_cues(restore_contents_in(c, changes)),
                EditView::EditCueTimes { changes } => self.after_set_times(inverse_changes(changes)),
                EditView::DeleteCue { cues } => self.after_insert_cues(cues),
                EditView::InsertCue { cues } => self.after_delete_cues(cues),
            },
        }
    }

    /// Taking the edit back stays within bounds.
    pub open spec fn can_undo_edit(self, e: EditView) -> bool {
        self.active_cues() matches Some(c) ==> match e {
            EditView::EditCueContent { changes } => restores_fit_in(c, changes),
            EditView::EditCueTimes { changes } => self.can_set_times(inverse_changes(changes)),
            EditView::DeleteCue { cues } => self.can_insert_cues(cues),
            EditView::InsertCue { cues } => self.can_delete_cues(cues),
        }
    }

    /// The state once an edit is made again: content changes give back the
    /// old contents (as taking them back does), changes of times are made,
    /// deleted cues deleted, inserted cues put in.
    pub open spec fn after_redo_edit(self, e: EditView) -> AppStateView {
        match self.active_cues() {
            None => self,
            Some(c) => match e {
                EditView::EditCueContent { changes } => self.with_active_cues(restore_contents_in(c, changes)),
                EditView::EditCueTimes { changes } => self.after_set_times(changes),
                EditView::DeleteCue { cues } => self.after_delete_cues(cues),
                EditView::InsertCue { cues } => self.after_insert_cues(cues),
            },
        }
    }

    /// Making the edit again stays within bounds.
    pub open spec fn can_redo_edit(self, e: EditView) -> bool {
        self.active_cues() matches Some(c) ==> match e {
            EditView::EditCueContent { changes } => restores_fit_in(c, changes),
            EditView::EditCueTimes { changes } => self.can_set_times(changes),
            EditView::DeleteCue { cues } => self.can_delete_cues(cues),
            EditView::InsertCue { cues } => self.can_insert_cues(cues),
        }
    }
}

impl App {
    fn restore_active_contents(&mut self, changes: &Vec<CueContentChange>)
        requires
            old(self).wf(),
            old(self).state.deep_view().active_cues() is Some,
            restores_fit_in(old(self).state.deep_view().active_cues()->0, changes.deep_view()),
        ensures
            final(self).wf(),
            final(self).state.deep_view() == old(self).state.deep_view().with_active_cues(
                restore_contents_in(old(self).state.deep_view().active_cues()->0, changes.deep_view()),
            ),
            final(self).keeps_engine(*old(self)),
    {
        let ghost s = self.state.deep_view();
        let i = match self.state.subtitle_documents.active_index() {
            Some(i) => i,
            None => return,
        };
        let doc = &mut self.state.subtitle_documents.documents[i].state.document;
        match &mut doc.cues {
            SubtitleCues::Word(cues) => restore_contents_exec(cues, changes),
            SubtitleCues::Cue(cues) => restore_contents_exec(cues, changes),
            SubtitleCues::Line(cues) => restore_contents_exec(cues, changes),
            SubtitleCues::Empty => {},
        }
        proof {
            let c2 = restore_contents_in(s.active_cues()->0, changes.deep_view());
            lemma_with_active_cues(s, c2);
            assert(self.state.deep_view().documents.entries =~= s.with_active_cues(c2).documents.entries);
        }
    }

    fn undo_edit(&mut self, edit: &Edit)
        requires
            old(self).wf(),
            old(self).state.deep_view().can_undo_edit(edit.deep_view()),
        ensures
            final(self).wf(),
            final(self).state.deep_view() == old(self).state.deep_view().after_undo_edit(edit.deep_view()),
            final(self).keeps_engine(*old(self)),
    {
        if self.state.subtitle_documents.active_index().is_none() {
            return;
        }
        match edit {
            Edit::EditCueContent { changes } => self.restore_active_contents(changes),
            Edit::EditCueTimes { changes } => {
                let inv = inverse_all(changes);
                self.set_times(inv);
            },
            Edit::DeleteCue { cues } => self.insert_cues(crate::seqs::clone_vec(cues)),
            Edit::InsertCue { cues } => self.delete_cues(crate::seqs::clone_vec(cues)),
        }
    }

    fn redo_edit(&mut self, edit: &Edit)
        requires
            old(self).wf(),
            old(self).state.deep_view().can_redo_edit(edit.deep_view()),
        ensures
            final(self).wf(),
            final(self).state.deep_view() == old(self).state.deep_view().after_redo_edit(edit.deep_view()),
            final(self).keeps_engine(*old(self)),
    {
        if self.state.subtitle_documents.active_index().is_none() {
            return;
        }
        match edit {
            Edit::EditCueContent { changes } => self.restore_active_contents(changes),
            Edit::EditCueTimes { changes } => {
                let c = changes.clone();
                assert(c@ =~= changes@);
                self.set_times(c);
            },
            Edit::DeleteCue { cues } => self.delete_cues(crate::seqs::clone_vec(cues)),
            Edit::InsertCue { cues } => self.insert_cues(crate::seqs::clone_vec(cues)),
        }
    }
}

// ---------------------------------------------------------------------------
// The history of the active document.

/// The document state with its history replaced.
pub open spec fn with_history(st: DocumentStateView, undo: Seq<EditView>, redo: Seq<EditView>) -> DocumentStateView {
    DocumentStateView { edit_history: HistoryView { undo, redo }, ..st }
}

impl AppStateView {
    /// The state once an edit is recorded in the active document's history
    /// (nothing without an active document).
    pub open spec fn after_push_to_history(self, e: EditView) -> AppStateView {
        match self.active_doc() {
            Some(st) => self.with_active_state(with_history(st, st.edit_history.undo.push(e), Seq::empty())),
            None => self,
        }
    }

    /// The state once the last edit is undone: it is taken off the undo
    /// stack, taken back, and put on the redo stack; where nothing is left to
    /// undo, nothing is unsaved any more.
    pub open spec fn after_undo(self) -> AppStateView {
        match self.active_doc() {
            None => self,
            Some(st) => {
                let h = st.edit_history;
                if h.undo.len() == 0 {
                    self
                } else {
                    let e = h.undo.last();
                    let s2 = self.with_active_state(with_history(st, h.undo.drop_last(), h.redo)).after_undo_edit(e);
                    match s2.active_doc() {
                        Some(st2) => s2.with_active_state(DocumentStateView {
                            unsaved_changes: if st2.edit_history.undo.len() == 0 {
                                false
                            } else {
                                st2.unsaved_changes
                            },
                            ..with_history(st2, st2.edit_history.undo, st2.edit_history.redo.push(e))
                        }),
                        None => s2,
                    }
                }
            },
        }
    }

    /// Undoing stays within bounds.
    pub open spec fn can_undo(self) -> bool {
        self.active_doc() matches Some(st) ==> (st.edit_history.undo.len() > 0 ==> self.with_active_state(
            with_history(st, st.edit_history.undo.drop_last(), st.edit_history.redo),
        ).can_undo_edit(st.edit_history.undo.last()))
    }

    /// The state once the last undone edit is redone: it is taken off the redo
    /// stack, made again, and put back on the undo stack; the document has
    /// unsaved changes.
    pub open spec fn after_redo(self) -> AppStateView {
        match self.active_doc() {
            None => self,
            Some(st) => {
                let h = st.edit_history;
                if h.redo.len() == 0 {
                    self
                } else {
                    let e = h.redo.last();
                    let s2 = self.with_active_state(with_history(st, h.undo, h.redo.drop_last())).after_redo_edit(e);
                    match s2.active_doc() {
                        Some(st2) => s2.with_active_state(DocumentStateView {
                            unsaved_changes: true,
                            ..with_history(st2, st2.edit_history.undo.push(e), st2.edit_history.redo)
                        }),
                        None => s2,
                    }
                }
            },
        }
    }

    /// Redoing stays within bounds.
    pub open spec fn can_redo(self) -> bool {
        self.active_doc() matches Some(st) ==> (st.edit_history.redo.len() > 0 ==> self.with_active_state(
            with_history(st, st.edit_history.undo, st.edit_history.redo.drop_last()),
        ).can_redo_edit(st.edit_history.redo.last()))
    }
}

impl App {
    /// Records an edit in the active document's history; false where there
    /// is no active document.
    pub fn push_to_history(&mut self, edit: Edit) -> (r: bool)
        requires
            old(self).wf(),
        ensures
            final(self).wf(),
            r == (old(self).state.deep_view().active_doc() is Some),
            final(self).state.deep_view() == old(self).state.deep_view().after_push_to_history(edit.deep_view()),
            final(self).keeps_engine(*old(self)),
    {
        let ghost s = self.state.deep_view();
        let ghost e = edit.deep_view();
        match self.state.subtitle_documents.active_index() {
            Some(i) => {
                self.state.subtitle_documents.documents[i].state.edit_history.push(edit);
                proof {
                    let st = s.active_doc()->0;
                    let st2 = with_history(st, st.edit_history.undo.push(e), Seq::empty());
                    lemma_with_active_state(s, st2);
                    assert(self.state.deep_view().documents.entries =~= s.with_active_state(st2).documents.entries);
                }
                true
            },
            None => false,
        }
    }

    /// Undoes the last edit of the active document (see `after_undo`).
    pub fn undo(&mut self)
        requires
            old(self).wf(),
            old(self).state.deep_view().can_undo(),
        ensures
            final(self).wf(),
            final(self).state.deep_view() == old(self).state.deep_view().after_undo(),
            final(self).keeps_engine(*old(self)),
    {
        let ghost s = self.state.deep_view();
        let i = match self.state.subtitle_documents.active_index() {
            Some(i) => i,
            None => return,
        };
        let popped = self.state.subtitle_documents.documents[i].state.edit_history.pop_undo();
        let edit = match popped {
            Some(e) => e,
            None => {
                assert(self.state.deep_view().documents.entries =~= s.documents.entries);
                return;
            },
        };
        let ghost st = s.active_doc()->0;
        let ghost e = edit.deep_view();
        proof {
            let st1 = with_history(st, st.edit_history.undo.drop_last(), st.edit_history.redo);
            lemma_with_active_state(s, st1);
            assert(self.state.deep_view().documents.entries =~= s.with_active_state(st1).documents.entries);
        }
        let ghost s1 = self.state.deep_view();
        self.undo_edit(&edit);
        let ghost s2 = self.state.deep_view();
        let j = match self.state.subtitle_documents.active_index() {
            Some(j) => j,
            None => return,
        };
        let ds = &mut self.state.subtitle_documents.documents[j].state;
        ds.edit_history.push_redo(edit);
        if ds.edit_history.is_empty() {
            ds.unsaved_changes = false;
        }
        proof {
            let st2 = s2.active_doc()->0;
            let st3 = DocumentStateView {
                unsaved_changes: if st2.edit_history.undo.len() == 0 { false } else { st2.unsaved_changes },
                ..with_history(st2, st2.edit_history.undo, st2.edit_history.redo.push(e))
            };
            lemma_with_active_state(s2, st3);
            assert(self.state.deep_view().documents.entries =~= s2.with_active_state(st3).documents.entries);
        }
    }

    /// Redoes the last undone edit of the active document (see
    /// `after_redo`).
    pub fn redo(&mut self)
        requires
            old(self).wf(),
            old(self).state.deep_view().can_redo(),
        ensures
            final(self).wf(),
            final(self).state.deep_view() == old(self).state.deep_view().after_redo(),
            final(self).keeps_engine(*old(self)),
    {
        let ghost s = self.state.deep_view();
        let i = match self.state.subtitle_documents.active_index() {
            Some(i) => i,
            None => return,
        };
        let popped = self.state.subtitle_documents.documents[i].state.edit_history.pop_redo();
        let edit = match popped {
            Some(e) => e,
            None => {
                assert(self.state.deep_view().documents.entries =~= s.documents.entries);
                return;
            },
        };
        let ghost st = s.active_doc()->0;
        let ghost e = edit.deep_view();
        proof {
            let st1 = with_history(st, st.edit_history.undo, st.edit_history.redo.drop_last());
            lemma_with_active_state(s, st1);
            assert(self.state.deep_view().documents.entries =~= s.with_active_state(st1).documents.entries);
        }
        self.redo_edit(&edit);
        let ghost s2 = self.state.deep_view();
        let j = match self.state.subtitle_documents.active_index() {
            Some(j) => j,
            None => return,
        };
        let ds = &mut self.state.subtitle_documents.documents[j].state;
        ds.unsaved_changes = true;
        ds.edit_history.push_undo(edit);
        proof {
            let st2 = s2.active_doc()->0;
            let st3 = DocumentStateView {
                unsaved_changes: true,
                ..with_history(st2, st2.edit_history.undo.push(e), st2.edit_history.redo)
            };
            lemma_with_active_state(s2, st3);
            assert(self.state.deep_view().documents.entries =~= s2.with_active_state(st3).documents.entries);
        }
    }
}

// ---------------------------------------------------------------------------
// Putting cues in and taking them out again.

/// Every given cue holds cues of this level.
pub open spec fn all_of_level<T: CueItem>(items: Seq<IndexedCueView>) -> bool {
    forall|k: int| 0 <= k < items.len() ==> (#[trigger] T::view_of_kind(items[k].subtitle_cue)) is Some
}

/// Every given cue holds, first, the cue of `cues` at its index.
pub open spec fn holds_cues_of<T: CueItem>(cues: Seq<T::V>, items: Seq<IndexedCueView>) -> bool {
    forall|k: int| 0 <= k < items.len() ==> {
        &&& (#[trigger] items[k]).index < cues.len()
        &&& T::view_of_kind(items[k].subtitle_cue) matches Some(s)
        &&& s.len() > 0
        &&& s[0] == cues[items[k].index as int]
    }
}

/// Taking out the cues just put in, the last first, gives the cues back.
pub proof fn lemma_delete_undoes_insert<T: CueItem>(cues: Seq<T::V>, mode: ModeView, items: Seq<IndexedCueView>, mode2: ModeView)
    requires
        inserts_fit::<T>(cues, mode, items),
        all_of_level::<T>(items),
    ensures
        delete_at_each_rev(insert_each::<T>(cues, mode, items).0, mode2, item_indices(items)).0 == cues,
    decreases items.len(),
{
    if items.len() > 0 {
        let rest = items.drop_last();
        let c = insert_each::<T>(cues, mode, rest).0;
        let it = items.last();
        assert(T::view_of_kind(items[items.len() - 1].subtitle_cue) is Some);
        let v = T::view_of_kind(it.subtitle_cue)->0;
        assert(c.insert(it.index as int, v[0]).remove(it.index as int) =~= c);
        assert(item_indices(items).drop_last() =~= item_indices(rest));
        assert(all_of_level::<T>(rest)) by {
            assert forall|k: int| 0 <= k < rest.len() implies (#[trigger] T::view_of_kind(rest[k].subtitle_cue)) is Some by {
                assert(rest[k] == items[k]);
            }
        }
        lemma_delete_undoes_insert::<T>(cues, mode, rest, mode_after_delete_at(mode2, it.index));
    }
}

/// Putting back the cues just taken out, at their (distinct, increasing)
/// indices, gives the cues back.
pub proof fn lemma_insert_undoes_delete<T: CueItem>(cues: Seq<T::V>, mode: ModeView, items: Seq<IndexedCueView>, mode2: ModeView)
    requires
        holds_cues_of::<T>(cues, items),
        strictly_sorted_by(items, key_fn::<IndexedSubtitleCue>()),
    ensures
        insert_each::<T>(delete_at_each_rev(cues, mode, item_indices(items)).0, mode2, items).0 == cues,
    decreases items.len(),
{
    if items.len() > 0 {
        let rest = items.drop_last();
        let it = items.last();
        let x = it.index;
        assert(items[items.len() - 1] == it);
        let cues1 = cues.remove(x as int);
        assert(item_indices(items).drop_last() =~= item_indices(rest));
        assert(holds_cues_of::<T>(cues1, rest)) by {
            assert forall|k: int| 0 <= k < rest.len() implies {
                &&& (#[trigger] rest[k]).index < cues1.len()
                &&& T::view_of_kind(rest[k].subtitle_cue) matches Some(s)
                &&& s.len() > 0
                &&& s[0] == cues1[rest[k].index as int]
            } by {
                assert(rest[k] == items[k]);
                assert(key_fn::<IndexedSubtitleCue>()(items[k]) < key_fn::<IndexedSubtitleCue>()(items[items.len() - 1]));
            }
        }
        assert(strictly_sorted_by(rest, key_fn::<IndexedSubtitleCue>())) by {
            assert forall|i: int, j: int| 0 <= i < j < rest.len() implies key_fn::<IndexedSubtitleCue>()(rest[i]) < key_fn::<IndexedSubtitleCue>()(rest[j]) by {
                assert(rest[i] == items[i] && rest[j] == items[j]);
            }
        }
        lemma_insert_undoes_delete::<T>(cues1, mode_after_delete_at(mode, x), rest, mode2);
        let v = T::view_of_kind(it.subtitle_cue)->0;
        assert(cues1.insert(x as int, v[0]) =~= cues);
    }
}

/// The given cues are of the level of `c`.
pub open spec fn all_of_level_of(c: CuesView, items: Seq<IndexedCueView>) -> bool {
    match c {
        CuesView::Word(_) => all_of_level::<AlignedCue>(items),
        CuesView::Cue(_) => all_of_level::<Cue>(items),
        CuesView::Line(_) => all_of_level::<Line>(items),
        CuesView::Empty => true,
    }
}

/// The given cues hold, first, the cues of `c` at their indices.
pub open spec fn holds_cues_in(c: CuesView, items: Seq<IndexedCueView>) -> bool {
    match c {
        CuesView::Word(s) => holds_cues_of::<AlignedCue>(s, items),
        CuesView::Cue(s) => holds_cues_of::<Cue>(s, items),
        CuesView::Line(s) => holds_cues_of::<Line>(s, items),
        CuesView::Empty => true,
    }
}

proof fn lemma_sorted_of_level<T: CueItem>(items: Seq<IndexedCueView>)
    requires
        all_of_level::<T>(items),
    ensures
        all_of_level::<T>(sorted_items(items)),
{
    lemma_sort_sorted(items, key_fn::<IndexedSubtitleCue>());
    let r = sorted_items(items);
    assert forall|k: int| 0 <= k < r.len() implies (#[trigger] T::view_of_kind(r[k].subtitle_cue)) is Some by {
        assert(items.contains(r[k]));
        let w = choose|w: int| 0 <= w < items.len() && items[w] == r[k];
        assert(T::view_of_kind(items[w].subtitle_cue) is Some);
    }
}

proof fn lemma_sorted_holds<T: CueItem>(cues: Seq<T::V>, items: Seq<IndexedCueView>)
    requires
        holds_cues_of::<T>(cues, items),
        distinct_keys(items, key_fn::<IndexedSubtitleCue>()),
    ensures
        holds_cues_of::<T>(cues, sorted_items(items)),
        strictly_sorted_by(sorted_items(items), key_fn::<IndexedSubtitleCue>()),
{
    lemma_sort_sorted(items, key_fn::<IndexedSubtitleCue>());
    let r = sorted_items(items);
    assert forall|k: int| 0 <= k < r.len() implies {
        &&& (#[trigger] r[k]).index < cues.len()
        &&& T::view_of_kind(r[k].subtitle_cue) matches Some(s)
        &&& s.len() > 0
        &&& s[0] == cues[r[k].index as int]
    } by {
        assert(items.contains(r[k]));
        let w = choose|w: int| 0 <= w < items.len() && items[w] == r[k];
        assert(items[w].index < cues.len());
    }
}

/// Indices in increasing order, each below `n`, can be removed one by one
/// (the last first) from `n` cues.
proof fn lemma_removals_fit_increasing(n: int, idx: Seq<usize>)
    requires
        forall|i: int, j: int| 0 <= i < j < idx.len() ==> idx[i] < idx[j],
        forall|i: int| 0 <= i < idx.len() ==> idx[i] < n,
    ensures
        removals_fit(n, idx),
    decreases idx.len(),
{
    if idx.len() > 0 {
        let d = idx.drop_last();
        assert forall|i: int| 0 <= i < d.len() implies d[i] < n - 1 by {
            assert(d[i] == idx[i]);
            assert(idx[i] < idx[idx.len() - 1]);
        }
        assert forall|i: int, j: int| 0 <= i < j < d.len() implies d[i] < d[j] by {
            assert(d[i] == idx[i] && d[j] == idx[j]);
        }
        lemma_removals_fit_increasing(n - 1, d);
    }
}

/// Indices each at most `base` plus their place can be removed one by one
/// (the last first) from `base` cues and one per index.
proof fn lemma_removals_fit_bounded(base: int, idx: Seq<usize>)
    requires
        forall|j: int| 0 <= j < idx.len() ==> idx[j] <= base + j,
    ensures
        removals_fit(base + idx.len(), idx),
    decreases idx.len(),
{
    if idx.len() > 0 {
        let d = idx.drop_last();
        assert forall|j: int| 0 <= j < d.len() implies d[j] <= base + j by {
            assert(d[j] == idx[j]);
        }
        lemma_removals_fit_bounded(base, d);
        assert(idx.last() == idx[idx.len() - 1]);
    }
}

/// Removing cues one by one leaves one cue fewer for each index.
proof fn lemma_delete_len<A>(q: Seq<A>, m: ModeView, idx: Seq<usize>)
    requires
        removals_fit(q.len() as int, idx),
    ensures
        delete_at_each_rev(q, m, idx).0.len() == q.len() - idx.len(),
    decreases idx.len(),
{
    if idx.len() > 0 {
        lemma_delete_len(q.remove(idx.last() as int), mode_after_delete_at(m, idx.last()), idx.drop_last());
    }
}

/// In an increasing sequence below `n`, the element at `j` is at most `n`
/// less the number of elements, plus `j`.
pub(crate) proof fn lemma_increasing_room(n: int, a: Seq<usize>)
    requires
        forall|i: int, j: int| 0 <= i < j < a.len() ==> a[i] < a[j],
        forall|i: int| 0 <= i < a.len() ==> a[i] < n,
    ensures
        forall|j: int| 0 <= j < a.len() ==> a[j] <= n - a.len() + j,
    decreases a.len(),
{
    if a.len() > 0 {
        let d = a.drop_last();
        let top = a[a.len() - 1] as int;
        assert forall|i: int| 0 <= i < d.len() implies d[i] < top by {
            assert(d[i] == a[i]);
        }
        assert forall|i: int, j: int| 0 <= i < j < d.len() implies d[i] < d[j] by {
            assert(d[i] == a[i] && d[j] == a[j]);
        }
        lemma_increasing_room(top, d);
        assert forall|j: int| 0 <= j < a.len() implies a[j] <= n - a.len() + j by {
            if j < d.len() {
                assert(d[j] == a[j]);
            }
        }
    }
}

/// Inserting, outside the select and edit modes, each cue at an index at
/// most the cues' number plus its place fits, adds one cue per item and
/// keeps the mode.
proof fn lemma_inserts_fit_normal<T: CueItem>(r: Seq<T::V>, items: Seq<IndexedCueView>)
    requires
        forall|j: int| 0 <= j < items.len() ==> (T::view_of_kind((#[trigger] items[j]).subtitle_cue) matches Some(x) && x.len() > 0),
        forall|j: int| 0 <= j < items.len() ==> (#[trigger] items[j]).index <= r.len() + j,
    ensures
        inserts_fit::<T>(r, ModeView::Normal, items),
        insert_each::<T>(r, ModeView::Normal, items).0.len() == r.len() + items.len(),
        insert_each::<T>(r, ModeView::Normal, items).1 == ModeView::Normal,
    decreases items.len(),
{
    if items.len() > 0 {
        let d = items.drop_last();
        assert forall|j: int| 0 <= j < d.len() implies (T::view_of_kind((#[trigger] d[j]).subtitle_cue) matches Some(x) && x.len() > 0) by {
            assert(d[j] == items[j]);
        }
        assert forall|j: int| 0 <= j < d.len() implies (#[trigger] d[j]).index <= r.len() + j by {
            assert(d[j] == items[j]);
        }
        lemma_inserts_fit_normal::<T>(r, d);
        assert(items.last() == items[items.len() - 1]);
    }
}

/// Each cue inserted (all of one level, as `inserts_fit` allows) adds one
/// cue, at an index at most the cues' number plus its place.
proof fn lemma_inserts_fit_bounds<T: CueItem>(q: Seq<T::V>, mode: ModeView, items: Seq<IndexedCueView>)
    requires
        inserts_fit::<T>(q, mode, items),
        all_of_level::<T>(items),
    ensures
        insert_each::<T>(q, mode, items).0.len() == q.len() + items.len(),
        forall|j: int| 0 <= j < items.len() ==> (#[trigger] items[j]).index <= q.len() + j,
    decreases items.len(),
{
    if items.len() > 0 {
        let d = items.drop_last();
        assert(all_of_level::<T>(d)) by {
            assert forall|k: int| 0 <= k < d.len() implies (#[trigger] T::view_of_kind(d[k].subtitle_cue)) is Some by {
                assert(d[k] == items[k]);
            }
        }
        lemma_inserts_fit_bounds::<T>(q, mode, d);
        assert(T::view_of_kind(items[items.len() - 1].subtitle_cue) is Some);
        assert forall|j: int| 0 <= j < items.len() implies (#[trigger] items[j]).index <= q.len() + j by {
            if j < d.len() {
                assert(d[j] == items[j]);
            }
        }
    }
}

/// Removing cues outside the select and edit modes keeps the mode.
proof fn lemma_delete_keeps_normal<A>(q: Seq<A>, idx: Seq<usize>)
    ensures
        delete_at_each_rev(q, ModeView::Normal, idx).1 == ModeView::Normal,
    decreases idx.len(),
{
    if idx.len() > 0 {
        lemma_delete_keeps_normal(q.remove(idx.last() as int), idx.drop_last());
    }
}

/// The chaining facts of putting back cues just deleted, for one level.
proof fn lemma_reinsert_fits<T: CueItem>(q: Seq<T::V>, items: Seq<IndexedCueView>)
    requires
        holds_cues_of::<T>(q, items),
        distinct_keys(items, key_fn::<IndexedSubtitleCue>()),
    ensures
        removals_fit(q.len() as int, item_indices(sorted_items(items))),
        inserts_fit::<T>(
            delete_at_each_rev(q, ModeView::Normal, item_indices(sorted_items(items))).0,
            delete_at_each_rev(q, ModeView::Normal, item_indices(sorted_items(items))).1,
            sorted_items(items),
        ),
{
    lemma_sorted_holds::<T>(q, items);
    let sorted = sorted_items(items);
    let idx = item_indices(sorted);
    let key = key_fn::<IndexedSubtitleCue>();
    assert forall|i: int, j: int| 0 <= i < j < idx.len() implies idx[i] < idx[j] by {
        assert(key(sorted[i]) < key(sorted[j]));
    }
    assert forall|i: int| 0 <= i < idx.len() implies idx[i] < q.len() by {
        assert(sorted[i].index < q.len());
    }
    lemma_removals_fit_increasing(q.len() as int, idx);
    lemma_delete_len(q, ModeView::Normal, idx);
    lemma_delete_keeps_normal(q, idx);
    lemma_increasing_room(q.len() as int, idx);
    let r = delete_at_each_rev(q, ModeView::Normal, idx).0;
    assert forall|j: int| 0 <= j < sorted.len() implies (T::view_of_kind((#[trigger] sorted[j]).subtitle_cue) matches Some(x) && x.len() > 0) by {
        assert(sorted[j].index < q.len());
    }
    assert forall|j: int| 0 <= j < sorted.len() implies (#[trigger] sorted[j]).index <= r.len() + j by {
        assert(idx[j] == sorted[j].index);
    }
    lemma_inserts_fit_normal::<T>(r, sorted);
}

/// Every selected index, or index of an edited cue, is at most `b`.
pub open spec fn selection_at_most(m: ModeView, b: int) -> bool {
    match m {
        ModeView::Normal => true,
        ModeView::Select { selected_cues, .. } => forall|k: int| 0 <= k < selected_cues.len() ==> selected_cues[k] <= b,
        ModeView::Edit { selected_cues, .. } => forall|k: int| 0 <= k < selected_cues.len() ==> selected_cues[k].index <= b,
    }
}

/// Leaving an index out of a selection keeps a bound on its indices.
proof fn lemma_without_at_most(s: Seq<usize>, x: usize, b: int)
    requires
        forall|k: int| 0 <= k < s.len() ==> s[k] <= b,
    ensures
        forall|k: int| 0 <= k < crate::app::without(s, x).len() ==> crate::app::without(s, x)[k] <= b,
    decreases s.len(),
{
    if s.len() > 0 {
        let d = s.drop_last();
        assert forall|k: int| 0 <= k < d.len() implies d[k] <= b by {
            assert(d[k] == s[k]);
        }
        lemma_without_at_most(d, x, b);
        let r = crate::app::without(d, x);
        assert(s.last() == s[s.len() - 1]);
        if s.last() != x {
            assert forall|k: int| 0 <= k < r.push(s.last()).len() implies r.push(s.last())[k] <= b by {
                if k < r.len() {
                    assert(r.push(s.last())[k] == r[k]);
                }
            }
        }
    }
}

/// Deleting cues at increasing indices, each with room below `b` for the
/// ones after it, lowers a bound `b` on the selection by one per index; the
/// cues left do not depend on the mode.
proof fn lemma_delete_at_most<A>(q: Seq<A>, m: ModeView, idx: Seq<usize>, b: int)
    requires
        selection_at_most(m, b),
        forall|t: int| 0 <= t < idx.len() ==> idx[t] + (idx.len() - t) <= b,
    ensures
        selection_at_most(delete_at_each_rev(q, m, idx).1, b - idx.len()),
        delete_at_each_rev(q, m, idx).0 == delete_at_each_rev(q, ModeView::Normal, idx).0,
    decreases idx.len(),
{
    if idx.len() > 0 {
        let x = idx.last();
        assert(x + 1 <= b) by {
            assert(idx[idx.len() - 1] == x);
        }
        let m1 = mode_after_delete_at(m, x);
        match m {
            ModeView::Select { cue_index, selected_cues } => {
                lemma_without_at_most(selected_cues, x, b);
                let w = crate::app::without(selected_cues, x);
                assert forall|k: int| 0 <= k < crate::app::shift_down_above(w, x).len() implies crate::app::shift_down_above(w, x)[k] <= b - 1 by {
                    assert(w[k] <= b);
                }
            },
            ModeView::Edit { cursor, selected_cues } => {
                assert forall|k: int| 0 <= k < crate::app::shift_edit_down_above(selected_cues, x).len()
                    implies crate::app::shift_edit_down_above(selected_cues, x)[k].index <= b - 1 by {
                    assert(selected_cues[k].index <= b);
                }
            },
            ModeView::Normal => {},
        }
        assert(selection_at_most(m1, b - 1));
        let d = idx.drop_last();
        assert forall|t: int| 0 <= t < d.len() implies d[t] + (d.len() - t) <= b - 1 by {
            assert(d[t] == idx[t]);
        }
        lemma_delete_at_most(q.remove(x as int), m1, d, b - 1);
        lemma_delete_at_most(q.remove(x as int), ModeView::Normal, d, b - 1);
    }
}

/// Inserting each cue at an index at most the cues' number plus its place
/// fits in any mode whose selection is at most `b`, with room for one more
/// per item; it adds one cue per item, and raises the bound by one per item.
proof fn lemma_inserts_fit_at_most<T: CueItem>(r: Seq<T::V>, m: ModeView, items: Seq<IndexedCueView>, b: int)
    requires
        forall|j: int| 0 <= j < items.len() ==> (T::view_of_kind((#[trigger] items[j]).subtitle_cue) matches Some(x) && x.len() > 0),
        forall|j: int| 0 <= j < items.len() ==> (#[trigger] items[j]).index <= r.len() + j,
        selection_at_most(m, b),
        b + items.len() <= usize::MAX,
    ensures
        inserts_fit::<T>(r, m, items),
        insert_each::<T>(r, m, items).0.len() == r.len() + items.len(),
        selection_at_most(insert_each::<T>(r, m, items).1, b + items.len()),
    decreases items.len(),
{
    if items.len() > 0 {
        let d = items.drop_last();
        assert forall|j: int| 0 <= j < d.len() implies (T::view_of_kind((#[trigger] d[j]).subtitle_cue) matches Some(x) && x.len() > 0) by {
            assert(d[j] == items[j]);
        }
        assert forall|j: int| 0 <= j < d.len() implies (#[trigger] d[j]).index <= r.len() + j by {
            assert(d[j] == items[j]);
        }
        lemma_inserts_fit_at_most::<T>(r, m, d, b);
        let it = items.last();
        assert(it == items[items.len() - 1]);
        let mm = insert_each::<T>(r, m, d).1;
        let top = b + d.len();
        match mm {
            ModeView::Select { cue_index, selected_cues } => {
                assert forall|k: int| 0 <= k < crate::app::shift_up_above(selected_cues, it.index).len()
                    implies crate::app::shift_up_above(selected_cues, it.index)[k] <= top + 1 by {
                    assert(selected_cues[k] <= top);
                }
            },
            ModeView::Edit { cursor, selected_cues } => {
                assert forall|k: int| 0 <= k < crate::app::shift_edit_up_above(selected_cues, it.index).len()
                    implies crate::app::shift_edit_up_above(selected_cues, it.index)[k].index <= top + 1 by {
                    assert(selected_cues[k].index <= top);
                }
            },
            ModeView::Normal => {},
        }
    }
}

/// Putting back cues just deleted fits in any mode, where there are at most
/// `usize::MAX` cues.
proof fn lemma_reinsert_fits_in_mode<T: CueItem>(q: Seq<T::V>, m: ModeView, items: Seq<IndexedCueView>)
    requires
        holds_cues_of::<T>(q, items),
        distinct_keys(items, key_fn::<IndexedSubtitleCue>()),
        q.len() <= usize::MAX,
    ensures
        inserts_fit::<T>(
            delete_at_each_rev(q, m, item_indices(sorted_items(items))).0,
            delete_at_each_rev(q, m, item_indices(sorted_items(items))).1,
            sorted_items(items),
        ),
{
    lemma_sorted_holds::<T>(q, items);
    let sorted = sorted_items(items);
    let idx = item_indices(sorted);
    let key = key_fn::<IndexedSubtitleCue>();
    let k = idx.len();
    assert forall|i: int, j: int| 0 <= i < j < idx.len() implies idx[i] < idx[j] by {
        assert(key(sorted[i]) < key(sorted[j]));
    }
    assert forall|i: int| 0 <= i < idx.len() implies idx[i] < q.len() by {
        assert(sorted[i].index < q.len());
    }
    lemma_removals_fit_increasing(q.len() as int, idx);
    lemma_delete_len(q, m, idx);
    lemma_increasing_room(q.len() as int, idx);
    let top = usize::MAX as int;
    assert(selection_at_most(m, top)) by {
        match m {
            ModeView::Select { selected_cues, .. } => {
                assert forall|j: int| 0 <= j < selected_cues.len() implies selected_cues[j] <= top by {
                    let v: usize = selected_cues[j];
                }
            },
            ModeView::Edit { selected_cues, .. } => {
                assert forall|j: int| 0 <= j < selected_cues.len() implies selected_cues[j].index <= top by {
                    let v: usize = selected_cues[j].index;
                }
            },
            ModeView::Normal => {},
        }
    }
    assert forall|t: int| 0 <= t < idx.len() implies idx[t] + (idx.len() - t) <= top by {
        assert(idx[t] <= q.len() - k + t);
    }
    lemma_delete_at_most(q, m, idx, top);
    let (r, m2) = delete_at_each_rev(q, m, idx);
    assert forall|j: int| 0 <= j < sorted.len() implies (T::view_of_kind((#[trigger] sorted[j]).subtitle_cue) matches Some(x) && x.len() > 0) by {
        assert(sorted[j].index < q.len());
    }
    assert forall|j: int| 0 <= j < sorted.len() implies (#[trigger] sorted[j]).index <= r.len() + j by {
        assert(idx[j] == sorted[j].index);
    }
    lemma_inserts_fit_at_most::<T>(r, m2, sorted, top - k);
}

/// The chaining fact of deleting cues just inserted, for one level.
proof fn lemma_redelete_fits<T: CueItem>(q: Seq<T::V>, mode: ModeView, items: Seq<IndexedCueView>)
    requires
        inserts_fit::<T>(q, mode, sorted_items(items)),
        all_of_level::<T>(items),
    ensures
        removals_fit(insert_each::<T>(q, mode, sorted_items(items)).0.len() as int, item_indices(sorted_items(items))),
{
    lemma_sorted_of_level::<T>(items);
    let sorted = sorted_items(items);
    lemma_inserts_fit_bounds::<T>(q, mode, sorted);
    let idx = item_indices(sorted);
    assert forall|j: int| 0 <= j < idx.len() implies idx[j] <= q.len() + j by {
        assert(idx[j] == sorted[j].index);
    }
    lemma_removals_fit_bounded(q.len() as int, idx);
}

/// Undoing an insertion: the given cues put into the active document and then
/// deleted again (as the history does) leave the documents as they were,
/// where each given cue is of the document's level.
pub proof fn law_delete_undoes_insert(s: AppStateView, items: Seq<IndexedCueView>)
    requires
        s.documents.wf(),
        s.can_insert_cues(items),
        s.active_cues() matches Some(c) ==> all_of_level_of(c, items),
    ensures
        s.after_insert_cues(items).after_delete_cues(items).documents == s.documents,
        s.after_insert_cues(items).can_delete_cues(items),
{
    let n = s.normal_without_track();
    if let Some(c) = n.active_cues() {
        let sorted = sorted_items(items);
        let (c2, m2) = insert_cues_in(c, n.mode, sorted);
        match c {
            CuesView::Word(q) => lemma_redelete_fits::<AlignedCue>(q, n.mode, items),
            CuesView::Cue(q) => lemma_redelete_fits::<Cue>(q, n.mode, items),
            CuesView::Line(q) => lemma_redelete_fits::<Line>(q, n.mode, items),
            CuesView::Empty => {},
        }
        lemma_with_active_cues(n, c2);
        let t = n.with_active_cues(c2).with_mode(m2);
        let tn = t.normal_without_track();
        assert(tn.active_cues() == Some(c2));
        let c3 = delete_cues_in(c2, tn.mode, sorted_indices(items)).0;
        assert(sorted_indices(items) == item_indices(sorted));
        match c {
            CuesView::Word(q) => {
                lemma_sorted_of_level::<AlignedCue>(items);
                lemma_delete_undoes_insert::<AlignedCue>(q, n.mode, sorted, tn.mode);
            },
            CuesView::Cue(q) => {
                lemma_sorted_of_level::<Cue>(items);
                lemma_delete_undoes_insert::<Cue>(q, n.mode, sorted, tn.mode);
            },
            CuesView::Line(q) => {
                lemma_sorted_of_level::<Line>(items);
                lemma_delete_undoes_insert::<Line>(q, n.mode, sorted, tn.mode);
            },
            CuesView::Empty => {},
        }
        assert(c3 == c);
        lemma_with_active_cues_back(n, c2);
    }
}

/// Undoing a deletion: cues of the active document deleted and then put back
/// (as the history does, each holding the cue that stood at its index, no
/// index twice) leave the documents as they were.
pub proof fn law_insert_undoes_delete(s: AppStateView, items: Seq<IndexedCueView>)
    requires
        s.documents.wf(),
        s.active_cues() matches Some(c) ==> holds_cues_in(c, items),
        distinct_keys(items, key_fn::<IndexedSubtitleCue>()),
    ensures
        s.after_delete_cues(items).after_insert_cues(items).documents == s.documents,
        s.can_delete_cues(items),
        s.mode is Normal || s.track is None ==> s.after_delete_cues(items).can_insert_cues(items),
        s.active_cues() matches Some(c) && crate::app::deletion::cues_len(c) <= usize::MAX
            ==> s.after_delete_cues(items).can_insert_cues(items),
{
    let n = s.normal_without_track();
    if let Some(c) = n.active_cues() {
        let sorted = sorted_items(items);
        assert(sorted_indices(items) == item_indices(sorted));
        match c {
            CuesView::Word(q) => lemma_reinsert_fits::<AlignedCue>(q, items),
            CuesView::Cue(q) => lemma_reinsert_fits::<Cue>(q, items),
            CuesView::Line(q) => lemma_reinsert_fits::<Line>(q, items),
            CuesView::Empty => {},
        }
        let (c2, m2) = delete_cues_in(c, n.mode, sorted_indices(items));
        lemma_with_active_cues(n, c2);
        let t = n.with_active_cues(c2).with_mode(m2);
        let tn = t.normal_without_track();
        assert(tn.active_cues() == Some(c2));
        if n.mode is Normal {
            match c {
                CuesView::Word(q) => lemma_delete_keeps_normal(q, sorted_indices(items)),
                CuesView::Cue(q) => lemma_delete_keeps_normal(q, sorted_indices(items)),
                CuesView::Line(q) => lemma_delete_keeps_normal(q, sorted_indices(items)),
                CuesView::Empty => {},
            }
            assert(tn.mode == ModeView::Normal);
            assert(inserts_fit_in(c2, tn.mode, sorted));
        } else if crate::app::deletion::cues_len(c) <= usize::MAX {
            assert(tn.mode == m2);
            match c {
                CuesView::Word(q) => lemma_reinsert_fits_in_mode::<AlignedCue>(q, n.mode, items),
                CuesView::Cue(q) => lemma_reinsert_fits_in_mode::<Cue>(q, n.mode, items),
                CuesView::Line(q) => lemma_reinsert_fits_in_mode::<Line>(q, n.mode, items),
                CuesView::Empty => {},
            }
            assert(inserts_fit_in(c2, tn.mode, sorted));
        }
        let c3 = insert_cues_in(c2, tn.mode, sorted).0;
        match c {
            CuesView::Word(q) => {
                lemma_sorted_holds::<AlignedCue>(q, items);
                lemma_insert_undoes_delete::<AlignedCue>(q, n.mode, sorted, tn.mode);
            },
            CuesView::Cue(q) => {
                lemma_sorted_holds::<Cue>(q, items);
                lemma_insert_undoes_delete::<Cue>(q, n.mode, sorted, tn.mode);
            },
            CuesView::Line(q) => {
                lemma_sorted_holds::<Line>(q, items);
                lemma_insert_undoes_delete::<Line>(q, n.mode, sorted, tn.mode);
            },
            CuesView::Empty => {},
        }
        assert(c3 == c);
        lemma_with_active_cues_back(n, c2);
    }
}

// ---------------------------------------------------------------------------
// Redoing what was undone.

/// Taking an edit back or making it again gives the same cues for two
/// states with the same cues, mode and track.
proof fn lemma_same_cues_steps(a: AppStateView, b: AppStateView, e: EditView)
    requires
        a.documents.wf(),
        b.documents.wf(),
        a.active_cues() == b.active_cues(),
        a.mode == b.mode,
        a.track == b.track,
    ensures
        a.after_undo_edit(e).active_cues() == b.after_undo_edit(e).active_cues(),
        a.after_redo_edit(e).active_cues() == b.after_redo_edit(e).active_cues(),
{
    let na = a.normal_without_track();
    let nb = b.normal_without_track();
    if let Some(c) = a.active_cues() {
        match e {
            EditView::EditCueContent { changes } => {
                let c2 = restore_contents_in(c, changes);
                lemma_with_active_cues(a, c2);
                lemma_with_active_cues(b, c2);
            },
            EditView::EditCueTimes { changes } => {
                let c2 = crate::app::timing::times_set_in(c, inverse_changes(changes));
                lemma_with_active_cues(na, c2);
                lemma_with_active_cues(nb, c2);
                let c3 = crate::app::timing::times_set_in(c, changes);
                lemma_with_active_cues(na, c3);
                lemma_with_active_cues(nb, c3);
            },
            EditView::DeleteCue { cues } => {
                let c2 = insert_cues_in(c, na.mode, sorted_items(cues)).0;
                lemma_with_active_cues(na, c2);
                lemma_with_active_cues(nb, c2);
                let c3 = delete_cues_in(c, na.mode, sorted_indices(cues)).0;
                lemma_with_active_cues(na, c3);
                lemma_with_active_cues(nb, c3);
            },
            EditView::InsertCue { cues } => {
                let c2 = delete_cues_in(c, na.mode, sorted_indices(cues)).0;
                lemma_with_active_cues(na, c2);
                lemma_with_active_cues(nb, c2);
                let c3 = insert_cues_in(c, na.mode, sorted_items(cues)).0;
                lemma_with_active_cues(na, c3);
                lemma_with_active_cues(nb, c3);
            },
        }
    }
}

/// An edit whose redoing gives back the cues `c` it was undone from: a
/// deletion of cues of the document's level; an insertion of cues that
/// are the document's own at their (distinct) indices; a change of one
/// cue's times, to within the cues, that left the cue where and as it is.
/// The original's redo of a content edit writes the old content again, so
/// such an edit is not one of them.
pub open spec fn redo_restores(c: CuesView, e: EditView) -> bool {
    match e {
        EditView::DeleteCue { cues } => all_of_level_of(c, cues),
        EditView::InsertCue { cues } => holds_cues_in(c, cues) && distinct_keys(cues, key_fn::<IndexedSubtitleCue>()),
        EditView::EditCueTimes { changes } => changes.len() == 1 && match c {
            CuesView::Word(q) => changes[0].old_index < q.len() && changes[0].new_index < q.len()
                && q[changes[0].new_index as int].start == changes[0].new_start
                && q[changes[0].new_index as int].end == changes[0].new_end,
            CuesView::Cue(q) => changes[0].old_index < q.len() && changes[0].new_index < q.len()
                && q[changes[0].new_index as int].start == changes[0].new_start
                && q[changes[0].new_index as int].end == changes[0].new_end,
            _ => true,
        },
        EditView::EditCueContent { .. } => false,
    }
}

/// Redoing an edit that was just taken back from cues `c` gives `c` again,
/// for an edit that `redo_restores` admits.
proof fn lemma_redo_of_undone_edit(v: AppStateView, e: EditView)
    requires
        v.documents.wf(),
        v.can_undo_edit(e),
        v.active_cues() matches Some(c) && redo_restores(c, e),
    ensures
        v.after_undo_edit(e).documents.wf(),
        v.after_undo_edit(e).active_doc() is Some,
        v.after_undo_edit(e).after_redo_edit(e).active_cues() == v.active_cues(),
{
    let c = v.active_cues()->0;
    let s2 = v.after_undo_edit(e);
    let n = v.normal_without_track();
    match e {
        EditView::DeleteCue { cues } => {
            let c2 = insert_cues_in(c, n.mode, sorted_items(cues)).0;
            lemma_with_active_cues(n, c2);
            law_delete_undoes_insert(v, cues);
        },
        EditView::InsertCue { cues } => {
            let c2 = delete_cues_in(c, n.mode, sorted_indices(cues)).0;
            lemma_with_active_cues(n, c2);
            law_insert_undoes_delete(v, cues);
        },
        EditView::EditCueTimes { changes } => {
            let c2 = crate::app::timing::times_set_in(c, inverse_changes(changes));
            lemma_with_active_cues(n, c2);
            let ch = changes[0];
            assert(inverse_changes(changes) =~= seq![ch.spec_inverse()]);
            assert(ch.spec_inverse().spec_inverse() == ch);
            assert(changes =~= seq![ch]);
            let n2 = s2.normal_without_track();
            let c3 = crate::app::timing::times_set_in(c2, changes);
            lemma_with_active_cues(n2, c3);
            match c {
                CuesView::Word(q) => crate::app::timing::lemma_single_change_undone::<AlignedCue>(q, ch.spec_inverse()),
                CuesView::Cue(q) => crate::app::timing::lemma_single_change_undone::<Cue>(q, ch.spec_inverse()),
                _ => {},
            }
        },
        EditView::EditCueContent { .. } => {},
    }
}

/// Undoing the last edit and then redoing it gives the cues back, for a
/// deletion, an insertion or a change of one cue's times (see
/// `redo_restores`).
pub proof fn law_redo_after_undo(s: AppStateView)
    requires
        s.documents.wf(),
        s.can_undo(),
        s.active_doc() matches Some(st) && st.edit_history.undo.len() > 0
            && redo_restores(st.document.cues, st.edit_history.undo.last()),
    ensures
        s.after_undo().after_redo().active_cues() == s.active_cues(),
{
    let st = s.active_doc()->0;
    let c = st.document.cues;
    let e = st.edit_history.undo.last();
    let st1 = with_history(st, st.edit_history.undo.drop_last(), st.edit_history.redo);
    lemma_with_active_state(s, st1);
    let v = s.with_active_state(st1);
    assert(v.active_cues() == Some(c));
    let s2 = v.after_undo_edit(e);
    lemma_redo_of_undone_edit(v, e);
    let st2 = s2.active_doc()->0;
    let st3 = DocumentStateView {
        unsaved_changes: if st2.edit_history.undo.len() == 0 { false } else { st2.unsaved_changes },
        ..with_history(st2, st2.edit_history.undo, st2.edit_history.redo.push(e))
    };
    lemma_with_active_state(s2, st3);
    let u = s2.with_active_state(st3);
    assert(u == s.after_undo());
    assert(st3.edit_history.redo.last() == e);
    let st4 = with_history(st3, st3.edit_history.undo, st3.edit_history.redo.drop_last());
    lemma_with_active_state(u, st4);
    let w = u.with_active_state(st4);
    lemma_same_cues_steps(w, s2, e);
    let s3 = w.after_redo_edit(e);
    assert(s3.active_cues() == Some(c));
    let st5 = s3.active_doc()->0;
    let st6 = DocumentStateView {
        unsaved_changes: true,
        ..with_history(st5, st5.edit_history.undo.push(e), st5.edit_history.redo)
    };
    lemma_with_active_state(s3, st6);
}

// ---------------------------------------------------------------------------
// Undoing what was just done.

/// An edit that taking back undoes, made on cues `c`: a deletion of cues
/// that are the document's own at their (distinct) indices; an insertion of
/// cues of the document's level; a change of one cue's times, from the times
/// it has, to within the cues. A content edit is not one of them: making it
/// again writes the old contents (see `after_redo_edit`).
pub open spec fn undo_restores(c: CuesView, e: EditView) -> bool {
    match e {
        EditView::DeleteCue { cues } => holds_cues_in(c, cues) && distinct_keys(cues, key_fn::<IndexedSubtitleCue>()),
        EditView::InsertCue { cues } => all_of_level_of(c, cues),
        EditView::EditCueTimes { changes } => changes.len() == 1 && match c {
            CuesView::Word(q) => changes[0].old_index < q.len() && changes[0].new_index < q.len()
                && q[changes[0].old_index as int].start == changes[0].old_start
                && q[changes[0].old_index as int].end == changes[0].old_end,
            CuesView::Cue(q) => changes[0].old_index < q.len() && changes[0].new_index < q.len()
                && q[changes[0].old_index as int].start == changes[0].old_start
                && q[changes[0].old_index as int].end == changes[0].old_end,
            _ => true,
        },
        EditView::EditCueContent { .. } => false,
    }
}

/// Taking back an edit just made on cues `c` gives `c` again, for an edit
/// that `undo_restores` admits.
proof fn lemma_undo_of_made_edit(s: AppStateView, e: EditView)
    requires
        s.documents.wf(),
        s.can_redo_edit(e),
        s.active_cues() matches Some(c) && undo_restores(c, e),
    ensures
        s.after_redo_edit(e).documents.wf(),
        s.after_redo_edit(e).active_doc() is Some,
        s.after_redo_edit(e).after_undo_edit(e).active_cues() == s.active_cues(),
{
    let c = s.active_cues()->0;
    let n = s.normal_without_track();
    match e {
        EditView::DeleteCue { cues } => {
            let c2 = delete_cues_in(c, n.mode, sorted_indices(cues)).0;
            lemma_with_active_cues(n, c2);
            law_insert_undoes_delete(s, cues);
        },
        EditView::InsertCue { cues } => {
            let c2 = insert_cues_in(c, n.mode, sorted_items(cues)).0;
            lemma_with_active_cues(n, c2);
            law_delete_undoes_insert(s, cues);
        },
        EditView::EditCueTimes { changes } => {
            let ch = changes[0];
            assert(changes =~= seq![ch]);
            let c2 = crate::app::timing::times_set_in(c, changes);
            lemma_with_active_cues(n, c2);
            crate::app::timing::law_time_change_then_inverse(s, ch);
        },
        EditView::EditCueContent { .. } => {},
    }
}

/// Making an edit, recording it, and undoing it gives the cues back, for a
/// deletion, an insertion or a change of one cue's times (see
/// `undo_restores`); the edit then waits to be redone.
pub proof fn law_undo_after_edit(s: AppStateView, e: EditView)
    requires
        s.documents.wf(),
        s.can_redo_edit(e),
        s.active_cues() matches Some(c) && undo_restores(c, e),
    ensures
        s.after_redo_edit(e).after_push_to_history(e).after_undo().active_cues() == s.active_cues(),
        s.after_redo_edit(e).after_push_to_history(e).after_undo().active_doc() matches Some(st)
            && st.edit_history.redo == seq![e],
{
    let c = s.active_cues()->0;
    lemma_undo_of_made_edit(s, e);
    let t = s.after_redo_edit(e);
    let st = t.active_doc()->0;
    let stp = with_history(st, st.edit_history.undo.push(e), Seq::empty());
    lemma_with_active_state(t, stp);
    let p = t.with_active_state(stp);
    assert(p == t.after_push_to_history(e));
    assert(stp.edit_history.undo.last() == e);
    assert(stp.edit_history.undo.drop_last() =~= st.edit_history.undo);
    let st1 = with_history(stp, stp.edit_history.undo.drop_last(), stp.edit_history.redo);
    lemma_with_active_state(p, st1);
    let v = p.with_active_state(st1);
    lemma_same_cues_steps(v, t, e);
    let s2 = v.after_undo_edit(e);
    assert(s2.active_cues() == Some(c));
    let n = v.normal_without_track();
    match e {
        EditView::DeleteCue { cues } => {
            let c2 = insert_cues_in(t.active_cues()->0, n.mode, sorted_items(cues)).0;
            lemma_with_active_cues(n, c2);
        },
        EditView::InsertCue { cues } => {
            let c2 = delete_cues_in(t.active_cues()->0, n.mode, sorted_indices(cues)).0;
            lemma_with_active_cues(n, c2);
        },
        EditView::EditCueTimes { changes } => {
            let c2 = crate::app::timing::times_set_in(t.active_cues()->0, inverse_changes(changes));
            lemma_with_active_cues(n, c2);
        },
        EditView::EditCueContent { .. } => {},
    }
    let st2 = s2.active_doc()->0;
    let st3 = DocumentStateView {
        unsaved_changes: if st2.edit_history.undo.len() == 0 { false } else { st2.unsaved_changes },
        ..with_history(st2, st2.edit_history.undo, st2.edit_history.redo.push(e))
    };
    lemma_with_active_state(s2, st3);
    assert(s2.with_active_state(st3) == p.after_undo());
}

// ---------------------------------------------------------------------------
// What inserting given cues does.

proof fn lemma_insert_each_places<T: CueItem>(q: Seq<T::V>, m: ModeView, items: Seq<IndexedCueView>)
    requires
        forall|a: int, b: int| 0 <= a < b < items.len() ==> items[a].index < items[b].index,
        forall|j: int| 0 <= j < items.len() ==> (T::view_of_kind((#[trigger] items[j]).subtitle_cue) matches Some(x) && x.len() > 0),
        forall|j: int| 0 <= j < items.len() ==> (#[trigger] items[j]).index <= q.len() + j,
    ensures
        insert_each::<T>(q, m, items).0.len() == q.len() + items.len(),
        holds_cues_of::<T>(insert_each::<T>(q, m, items).0, items),
    decreases items.len(),
{
    if items.len() > 0 {
        let d = items.drop_last();
        assert forall|a: int, b: int| 0 <= a < b < d.len() implies d[a].index < d[b].index by {
            assert(d[a] == items[a] && d[b] == items[b]);
        }
        assert forall|j: int| 0 <= j < d.len() implies (T::view_of_kind((#[trigger] d[j]).subtitle_cue) matches Some(x) && x.len() > 0) by {
            assert(d[j] == items[j]);
        }
        assert forall|j: int| 0 <= j < d.len() implies (#[trigger] d[j]).index <= q.len() + j by {
            assert(d[j] == items[j]);
        }
        lemma_insert_each_places::<T>(q, m, d);
        let it = items.last();
        assert(it == items[items.len() - 1]);
        let c = insert_each::<T>(q, m, d).0;
        let x = T::view_of_kind(it.subtitle_cue)->0[0];
        let r = c.insert(it.index as int, x);
        assert forall|k: int| 0 <= k < items.len() implies {
            &&& (#[trigger] items[k]).index < r.len()
            &&& T::view_of_kind(items[k].subtitle_cue) matches Some(v)
            &&& v.len() > 0
            &&& v[0] == r[items[k].index as int]
        } by {
            if k < d.len() {
                assert(d[k] == items[k]);
                assert(items[k].index < it.index);
            }
        }
    }
}

/// Inserting given cues of the document's level, each at its own index (where
/// that fits), adds one cue per given cue, and each given cue then stands at
/// its index.
pub proof fn law_insert_cues(s: AppStateView, items: Seq<IndexedCueView>)
    requires
        s.documents.wf(),
        s.active_cues() matches Some(c) && !(c is Empty) && all_of_level_of(c, items),
        s.can_insert_cues(items),
        distinct_keys(items, key_fn::<IndexedSubtitleCue>()),
    ensures
        s.after_insert_cues(items).active_cues() matches Some(c2)
            && crate::app::deletion::cues_len(c2) == crate::app::deletion::cues_len(s.active_cues()->0) + items.len()
            && holds_cues_in(c2, items),
{
    let c = s.active_cues()->0;
    let key = key_fn::<IndexedSubtitleCue>();
    let sorted = sorted_items(items);
    lemma_sort_sorted(items, key);
    crate::sort::lemma_sort_keeps_all(items, key, key);
    crate::sort::lemma_sort_len(items, key);
    let n = s.normal_without_track();
    let (c2, m2) = insert_cues_in(c, n.mode, sorted);
    lemma_with_active_cues(n, c2);
    assert forall|a: int, b: int| 0 <= a < b < sorted.len() implies sorted[a].index < sorted[b].index by {
        assert(key(sorted[a]) < key(sorted[b]));
    }
    match c {
        CuesView::Word(q) => {
            lemma_sorted_of_level::<AlignedCue>(items);
            lemma_inserts_fit_bounds::<AlignedCue>(q, n.mode, sorted);
            lemma_inserts_fit_nonempty::<AlignedCue>(q, n.mode, sorted);
            lemma_insert_each_places::<AlignedCue>(q, n.mode, sorted);
            lemma_holds_of_sorted::<AlignedCue>(insert_each::<AlignedCue>(q, n.mode, sorted).0, items);
        },
        CuesView::Cue(q) => {
            lemma_sorted_of_level::<Cue>(items);
            lemma_inserts_fit_bounds::<Cue>(q, n.mode, sorted);
            lemma_inserts_fit_nonempty::<Cue>(q, n.mode, sorted);
            lemma_insert_each_places::<Cue>(q, n.mode, sorted);
            lemma_holds_of_sorted::<Cue>(insert_each::<Cue>(q, n.mode, sorted).0, items);
        },
        CuesView::Line(q) => {
            lemma_sorted_of_level::<Line>(items);
            lemma_inserts_fit_bounds::<Line>(q, n.mode, sorted);
            lemma_inserts_fit_nonempty::<Line>(q, n.mode, sorted);
            lemma_insert_each_places::<Line>(q, n.mode, sorted);
            lemma_holds_of_sorted::<Line>(insert_each::<Line>(q, n.mode, sorted).0, items);
        },
        CuesView::Empty => {},
    }
}

proof fn lemma_inserts_fit_nonempty<T: CueItem>(q: Seq<T::V>, m: ModeView, items: Seq<IndexedCueView>)
    requires
        inserts_fit::<T>(q, m, items),
    ensures
        forall|j: int| 0 <= j < items.len() ==> (T::view_of_kind((#[trigger] items[j]).subtitle_cue) matches Some(x) ==> x.len() > 0),
    decreases items.len(),
{
    if items.len() > 0 {
        let d = items.drop_last();
        lemma_inserts_fit_nonempty::<T>(q, m, d);
        assert forall|j: int| 0 <= j < items.len() implies (T::view_of_kind((#[trigger] items[j]).subtitle_cue) matches Some(x) ==> x.len() > 0) by {
            if j < d.len() {
                assert(d[j] == items[j]);
            }
        }
    }
}

/// What the sorted given cues hold, the given cues hold.
proof fn lemma_holds_of_sorted<T: CueItem>(r: Seq<T::V>, items: Seq<IndexedCueView>)
    requires
        holds_cues_of::<T>(r, sorted_items(items)),
    ensures
        holds_cues_of::<T>(r, items),
{
    let key = key_fn::<IndexedSubtitleCue>();
    crate::sort::lemma_sort_keeps_all(items, key, key);
    let sorted = sorted_items(items);
    assert forall|k: int| 0 <= k < items.len() implies {
        &&& (#[trigger] items[k]).index < r.len()
        &&& T::view_of_kind(items[k].subtitle_cue) matches Some(v)
        &&& v.len() > 0
        &&& v[0] == r[items[k].index as int]
    } by {
        assert(sorted.contains(items[k]));
        let m = choose|m: int| 0 <= m < sorted.len() && sorted[m] == items[k];
    }
}

} // verus!

//! The edit history of a document: the edits that can be undone, and the
//! undone edits that can be redone.

use vstd::prelude::*;

use crate::cues::{CuesView, SubtitleCues};

verus! {

/// A change of the content of one cue.
pub struct CueContentChange {
    pub index: usize,
    pub old_content: SubtitleCues,
    pub new_content: SubtitleCues,
}

/// A content change, as plain values.
pub struct ContentChangeView {
    pub index: usize,
    pub old_content: CuesView,
    pub new_content: CuesView,
}

impl DeepView for CueContentChange {
    type V = ContentChangeView;

    open spec fn deep_view(&self) -> ContentChangeView {
        ContentChangeView {
            index: self.index,
            old_content: self.old_content.deep_view(),
            new_content: self.new_content.deep_view(),
        }
    }
}

impl Clone for CueContentChange {
    fn clone(&self) -> (r: Self)
        ensures
            r.deep_view() == self.deep_view(),
    {
        CueContentChange {
            index: self.index,
            old_content: self.old_content.clone(),
            new_content: self.new_content.clone(),
        }
    }
}

/// A change of the times of one cue, which may move it to another index.
#[derive(Clone, Copy)]
pub struct CueTimeChange {
    pub id: u128,
    pub new_index: usize,
    pub old_index: usize,
    pub old_start: i64,
    pub old_end: i64,
    pub new_start: i64,
    pub new_end: i64,
}

impl DeepView for CueTimeChange {
    type V = CueTimeChange;

    open spec fn deep_view(&self) -> CueTimeChange {
        *self
    }
}

impl CueTimeChange {
    /// The change that takes the cue back: old and new swapped.
    pub open spec fn spec_inverse(self) -> CueTimeChange {
        CueTimeChange {
            id: self.id,
            new_index: self.old_index,
            old_index: self.new_index,
            new_start: self.old_start,
            old_start: self.new_start,
            new_end: self.old_end,
            old_end: self.new_end,
        }
    }

    /// The change that takes the cue back: old and new swapped.
    pub fn inverse(&self) -> (r: CueTimeChange)
        ensures
            r == self.spec_inverse(),
    {
        CueTimeChange {
            id: self.id,
            new_index: self.old_index,
            old_index: self.new_index,
            new_start: self.old_start,
            old_start: self.new_start,
            new_end: self.old_end,
            old_end: self.new_end,
        }
    }
}

/// Changes are taken in decreasing order of their old index.
impl crate::sort::SortKey for CueTimeChange {
    open spec fn key_of(v: CueTimeChange) -> int {
        -(v.old_index as int)
    }

    fn key_greater(&self, other: &Self) -> (r: bool) {
        self.old_index < other.old_index
    }
}

/// A cue together with the index it stood (or is to stand) at.
pub struct IndexedSubtitleCue {
    pub index: usize,
    pub subtitle_cue: SubtitleCues,
}

/// An indexed cue, as plain values.
pub struct IndexedCueView {
    pub index: usize,
    pub subtitle_cue: CuesView,
}

impl DeepView for IndexedSubtitleCue {
    type V = IndexedCueView;

    open spec fn deep_view(&self) -> IndexedCueView {
        IndexedCueView { index: self.index, subtitle_cue: self.subtitle_cue.deep_view() }
    }
}

impl Clone for IndexedSubtitleCue {
    fn clone(&self) -> (r: Self)
        ensures
            r.deep_view() == self.deep_view(),
    {
        IndexedSubtitleCue { index: self.index, subtitle_cue: self.subtitle_cue.clone() }
    }
}

impl crate::sort::SortKey for IndexedSubtitleCue {
    open spec fn key_of(v: IndexedCueView) -> int {
        v.index as int
    }

    fn key_greater(&self, other: &Self) -> (r: bool) {
        self.index > other.index
    }
}

/// One edit of a document.
pub enum Edit {
    EditCueContent { changes: Vec<CueContentChange> },
    EditCueTimes { changes: Vec<CueTimeChange> },
    DeleteCue { cues: Vec<IndexedSubtitleCue> },
    InsertCue { cues: Vec<IndexedSubtitleCue> },
}

/// An edit, as plain values.
pub enum EditView {
    EditCueContent { changes: Seq<ContentChangeView> },
    EditCueTimes { changes: Seq<CueTimeChange> },
    DeleteCue { cues: Seq<IndexedCueView> },
    InsertCue { cues: Seq<IndexedCueView> },
}

impl DeepView for Edit {
    type V = EditView;

    open spec fn deep_view(&self) -> EditView {
        match self {
            Edit::EditCueContent { changes } => EditView::EditCueContent {
                changes: changes.deep_view(),
            },
            Edit::EditCueTimes { changes } => EditView::EditCueTimes { changes: changes@ },
            Edit::DeleteCue { cues } => EditView::DeleteCue { cues: cues.deep_view() },
            Edit::InsertCue { cues } => EditView::InsertCue { cues: cues.deep_view() },
        }
    }
}

impl Clone for Edit {
    fn clone(&self) -> (r: Self)
        ensures
            r.deep_view() == self.deep_view(),
    {
        match self {
            Edit::EditCueContent { changes } => Edit::EditCueContent {
                changes: crate::seqs::clone_vec(changes),
            },
            Edit::EditCueTimes { changes } => {
                let c = changes.clone();
                assert(c@ =~= changes@);
                Edit::EditCueTimes { changes: c }
            },
            Edit::DeleteCue { cues } => Edit::DeleteCue { cues: crate::seqs::clone_vec(cues) },
            Edit::InsertCue { cues } => Edit::InsertCue { cues: crate::seqs::clone_vec(cues) },
        }
    }
}

/// The edits that can be undone (last one on top) and those that can be redone.
pub struct EditHistory {
    undo: Vec<Edit>,
    redo: Vec<Edit>,
}

/// The edit history, as plain values.
pub struct HistoryView {
    pub undo: Seq<EditView>,
    pub redo: Seq<EditView>,
}

impl DeepView for EditHistory {
    type V = HistoryView;

    closed spec fn deep_view(&self) -> HistoryView {
        HistoryView { undo: self.undo.deep_view(), redo: self.redo.deep_view() }
    }
}

impl Clone for EditHistory {
    fn clone(&self) -> (r: Self)
        ensures
            r.deep_view() == self.deep_view(),
    {
        EditHistory { undo: crate::seqs::clone_vec(&self.undo), redo: crate::seqs::clone_vec(&self.redo) }
    }
}

impl EditHistory {
    /// An empty history.
    pub fn new() -> (r: Self)
        ensures
            r.deep_view().undo == Seq::<EditView>::empty(),
            r.deep_view().redo == Seq::<EditView>::empty(),
    {
        let r = EditHistory { undo: Vec::new(), redo: Vec::new() };
        assert(r.undo.deep_view() =~= Seq::<EditView>::empty());
        assert(r.redo.deep_view() =~= Seq::<EditView>::empty());
        r
    }

    /// Whether there is nothing to undo.
    pub fn is_empty(&self) -> (r: bool)
        ensures
            r == (self.deep_view().undo.len() == 0),
    {
        self.undo.is_empty()
    }

    /// Forgets the edits that can be undone.
    pub fn empty(&mut self)
        ensures
            final(self).deep_view().undo == Seq::<EditView>::empty(),
            final(self).deep_view().redo == old(self).deep_view().redo,
    {
        self.undo.clear();
        assert(self.undo.deep_view() =~= Seq::<EditView>::empty());
    }

    /// Records a new edit: it can be undone, and nothing can be redone any more.
    pub fn push(&mut self, edit: Edit)
        ensures
            final(self).deep_view().undo == old(self).deep_view().undo.push(edit.deep_view()),
            final(self).deep_view().redo == Seq::<EditView>::empty(),
    {
        let ghost e = edit.deep_view();
        self.undo.push(edit);
        self.redo.clear();
        assert(self.undo.deep_view() =~= old(self).undo.deep_view().push(e));
        assert(self.redo.deep_view() =~= Seq::<EditView>::empty());
    }

    /// Puts an edit back on the undo stack, keeping what can be redone.
    pub fn push_undo(&mut self, edit: Edit)
        ensures
            final(self).deep_view().undo == old(self).deep_view().undo.push(edit.deep_view()),
            final(self).deep_view().redo == old(self).deep_view().redo,
    {
        let ghost e = edit.deep_view();
        self.undo.push(edit);
        assert(self.undo.deep_view() =~= old(self).undo.deep_view().push(e));
    }

    /// Takes the last edit that can be undone.
    pub fn pop_undo(&mut self) -> (r: Option<Edit>)
        ensures
            old(self).deep_view().undo.len() == 0 ==> r is None && final(self).deep_view()
                == old(self).deep_view(),
            old(self).deep_view().undo.len() > 0 ==> {
                &&& r matches Some(e) && e.deep_view() == old(self).deep_view().undo.last()
                &&& final(self).deep_view().undo == old(self).deep_view().undo.drop_last()
                &&& final(self).deep_view().redo == old(self).deep_view().redo
            },
    {
        let r = self.undo.pop();
        proof {
            if old(self).undo@.len() > 0 {
                assert(self.undo.deep_view() =~= old(self).undo.deep_view().drop_last());
            } else {
                assert(self.undo.deep_view() =~= old(self).undo.deep_view());
            }
        }
        r
    }

    /// Records an undone edit, so that it can be redone.
    pub fn push_redo(&mut self, edit: Edit)
        ensures
            final(self).deep_view().redo == old(self).deep_view().redo.push(edit.deep_view()),
            final(self).deep_view().undo == old(self).deep_view().undo,
    {
        let ghost e = edit.deep_view();
        self.redo.push(edit);
        assert(self.redo.deep_view() =~= old(self).redo.deep_view().push(e));
    }

    /// Takes the last undone edit.
    pub fn pop_redo(&mut self) -> (r: Option<Edit>)
        ensures
            old(self).deep_view().redo.len() == 0 ==> r is None && final(self).deep_view()
                == old(self).deep_view(),
            old(self).deep_view().redo.len() > 0 ==> {
                &&& r matches Some(e) && e.deep_view() == old(self).deep_view().redo.last()
                &&& final(self).deep_view().redo == old(self).deep_view().redo.drop_last()
                &&& final(self).deep_view().undo == old(self).deep_view().undo
            },
    {
        let r = self.redo.pop();
        proof {
            if old(self).redo@.len() > 0 {
                assert(self.redo.deep_view() =~= old(self).redo.deep_view().drop_last());
            } else {
                assert(self.redo.deep_view() =~= old(self).redo.deep_view());
            }
        }
        r
    }
}

} // verus!

//! Deleting cues: the current one, the selected ones, or given ones.

use vstd::prelude::*;

use crate::app::{
    decrement_above, decrement_edit_above, edit_indices, retain_other, retain_other_edit,
    shift_down_above, shift_edit_down_above, without, without_edit, App,
};
use crate::history::{IndexedCueView, IndexedSubtitleCue};
use crate::sort::{key_fn, sort_by_key, sort_by_key_exec};
use crate::cues::{CuesView, SubtitleCues};
use crate::mode::{AppMode, ModeView};
use crate::state::AppStateView;

verus! {

/// The current cue deleted, and dropped from the selection.
pub open spec fn delete_current_on<A>(cues: Seq<A>, mode: ModeView) -> (Seq<A>, ModeView) {
    match mode {
        ModeView::Normal => (cues, mode),
        ModeView::Select { cue_index, selected_cues } => (
            cues.remove(cue_index as int),
            ModeView::Select { cue_index, selected_cues: without(selected_cues, cue_index) },
        ),
        ModeView::Edit { cursor, selected_cues } => (
            cues.remove(cursor.cue_index as int),
            ModeView::Edit { cursor, selected_cues: without_edit(selected_cues, cursor.cue_index) },
        ),
    }
}

/// The index of the current cue, outside the normal mode.
pub open spec fn current_index(mode: ModeView) -> Option<usize> {
    match mode {
        ModeView::Normal => None,
        ModeView::Select { cue_index, .. } => Some(cue_index),
        ModeView::Edit { cursor, .. } => Some(cursor.cue_index),
    }
}

/// `delete_current_on` for each level of cues; nothing for no cues.
pub open spec fn delete_current_cues(cues: CuesView, mode: ModeView) -> (CuesView, ModeView) {
    match cues {
        CuesView::Word(s) => {
            let (c, m) = delete_current_on(s, mode);
            (CuesView::Word(c), m)
        },
        CuesView::Cue(s) => {
            let (c, m) = delete_current_on(s, mode);
            (CuesView::Cue(c), m)
        },
        CuesView::Line(s) => {
            let (c, m) = delete_current_on(s, mode);
            (CuesView::Line(c), m)
        },
        CuesView::Empty => (cues, mode),
    }
}

/// The number of cues.
pub open spec fn cues_len(cues: CuesView) -> nat {
    match cues {
        CuesView::Word(s) => s.len(),
        CuesView::Cue(s) => s.len(),
        CuesView::Line(s) => s.len(),
        CuesView::Empty => 0,
    }
}

/// Whether the current cue (outside the normal mode) is a cue of the document.
pub open spec fn current_in_range(cues: CuesView, mode: ModeView) -> bool {
    cues !is Empty ==> match current_index(mode) {
        Some(i) => i < cues_len(cues),
        None => true,
    }
}

impl AppStateView {
    /// The state once the current line is deleted.
    pub open spec fn after_delete_current_line(self) -> AppStateView {
        let s = self.normal_without_track();
        match s.active_cues() {
            Some(c) => {
                let (c2, m2) = delete_current_cues(c, s.mode);
                s.with_active_cues(c2).with_mode(m2)
            },
            None => s.with_mode(ModeView::Normal),
        }
    }

    /// The current line can be deleted without going out of bounds.
    pub open spec fn can_delete_current_line(self) -> bool {
        let s = self.normal_without_track();
        s.active_cues() matches Some(c) ==> current_in_range(c, s.mode)
    }
}

/// Deletes the current cue of `cues` and drops it from the selection.
fn delete_current_in<T: DeepView>(cues: &mut Vec<T>, mode: &mut AppMode)
    requires
        current_index(old(mode).deep_view()) matches Some(i) ==> i < old(cues)@.len(),
    ensures
        (final(cues).deep_view(), final(mode).deep_view()) == delete_current_on(
            old(cues).deep_view(),
            old(mode).deep_view(),
        ),
{
    match mode {
        AppMode::Normal => {},
        AppMode::Select { cue_index, selected_cues } => {
            *selected_cues = retain_other(selected_cues, *cue_index);
            crate::seqs::remove_at(cues, *cue_index);
        },
        AppMode::Edit { cursor, selected_cues } => {
            let mut taken: Vec<crate::mode::EditCue> = Vec::new();
            std::mem::swap(selected_cues, &mut taken);
            *selected_cues = retain_other_edit(taken, cursor.cue_index);
            crate::seqs::remove_at(cues, cursor.cue_index);
        },
    }
}

impl App {
    /// Deletes the current cue (in the select and edit modes) and drops it
    /// from the selection.
    pub fn delete_current_line(&mut self)
        requires
            old(self).wf(),
            old(self).state.deep_view().can_delete_current_line(),
        ensures
            final(self).wf(),
            final(self).state.deep_view() == old(self).state.deep_view().after_delete_current_line(),
            final(self).keeps_engine(*old(self)),
    {
        if self.state.track.is_none() {
            self.switch_to_normal_mode();
        }
        match self.state.subtitle_documents.active_index() {
            Some(i) => {
                let ghost s = self.state.deep_view();
                let doc = &mut self.state.subtitle_documents.documents[i].state.document;
                match &mut doc.cues {
                    SubtitleCues::Word(cues) => delete_current_in(cues, &mut self.state.app_mode),
                    SubtitleCues::Cue(cues) => delete_current_in(cues, &mut self.state.app_mode),
                    SubtitleCues::Line(cues) => delete_current_in(cues, &mut self.state.app_mode),
                    SubtitleCues::Empty => {},
                }
                proof {
                    let (c2, m2) = delete_current_cues(s.active_cues()->0, s.mode);
                    crate::state::lemma_with_active_cues(s, c2);
                    assert(self.state.deep_view().documents.entries =~= s.with_active_cues(c2).documents.entries);
                }
            },
            None => self.switch_to_normal_mode(),
        }
    }
}

/// The cues at the indices of `idx` removed one by one, the last index first;
/// the current index moved down past each removal below it.
pub open spec fn remove_each_rev<A>(cues: Seq<A>, idx: Seq<usize>, current: usize) -> (Seq<A>, usize)
    decreases idx.len(),
{
    if idx.len() == 0 {
        (cues, current)
    } else {
        let x = idx.last();
        remove_each_rev(
            cues.remove(x as int),
            idx.drop_last(),
            if x < current { (current - 1) as usize } else { current },
        )
    }
}

/// Each removal of `remove_each_rev` stays within the cues.
pub open spec fn removals_fit(len: int, idx: Seq<usize>) -> bool
    decreases idx.len(),
{
    idx.len() == 0 || (idx.last() < len && removals_fit(len - 1, idx.drop_last()))
}

/// The selected cues deleted; the selection cleared in the select mode.
pub open spec fn delete_selected_on<A>(cues: Seq<A>, mode: ModeView) -> (Seq<A>, ModeView) {
    match mode {
        ModeView::Normal => (cues, mode),
        ModeView::Select { cue_index, selected_cues } => {
            let (c, i) = remove_each_rev(cues, selected_cues, cue_index);
            (c, ModeView::Select { cue_index: i, selected_cues: Seq::empty() })
        },
        ModeView::Edit { cursor, selected_cues } => {
            let (c, i) = remove_each_rev(cues, edit_indices(selected_cues), cursor.cue_index);
            (c, ModeView::Edit { cursor: crate::mode::Cursor { cue_index: i, ..cursor }, selected_cues })
        },
    }
}

/// The indices of the selected cues.
pub open spec fn selected_indices(mode: ModeView) -> Seq<usize> {
    match mode {
        ModeView::Normal => Seq::empty(),
        ModeView::Select { selected_cues, .. } => selected_cues,
        ModeView::Edit { selected_cues, .. } => edit_indices(selected_cues),
    }
}

/// `delete_selected_on` for each level of cues; nothing for no cues.
pub open spec fn delete_selected_cues(cues: CuesView, mode: ModeView) -> (CuesView, ModeView) {
    match cues {
        CuesView::Word(s) => {
            let (c, m) = delete_selected_on(s, mode);
            (CuesView::Word(c), m)
        },
        CuesView::Cue(s) => {
            let (c, m) = delete_selected_on(s, mode);
            (CuesView::Cue(c), m)
        },
        CuesView::Line(s) => {
            let (c, m) = delete_selected_on(s, mode);
            (CuesView::Line(c), m)
        },
        CuesView::Empty => (cues, mode),
    }
}

impl AppStateView {
    /// The state once the selected lines are deleted.
    pub open spec fn after_delete_selected_lines(self) -> AppStateView {
        let s = self.normal_without_track();
        match s.active_cues() {
            Some(c) => {
                let (c2, m2) = delete_selected_cues(c, s.mode);
                s.with_active_cues(c2).with_mode(m2)
            },
            None => s.with_mode(ModeView::Normal),
        }
    }

    /// The selected lines can be deleted without going out of bounds.
    pub open spec fn can_delete_selected_lines(self) -> bool {
        let s = self.normal_without_track();
        s.active_cues() matches Some(c) ==> (c !is Empty ==> removals_fit(
            cues_len(c) as int,
            selected_indices(s.mode),
        ))
    }
}

proof fn lemma_take_step(idx: Seq<usize>, k: int)
    requires
        0 < k <= idx.len(),
    ensures
        idx.take(k).last() == idx[k - 1],
        idx.take(k).drop_last() == idx.take(k - 1),
{
    assert(idx.take(k).drop_last() =~= idx.take(k - 1));
}

/// Removes the cues at the indices of `idx`, the last first, moving `current`
/// down past each removal below it.
fn remove_each_rev_exec<T: DeepView>(cues: &mut Vec<T>, idx: &Vec<usize>, current: &mut usize)
    requires
        removals_fit(old(cues)@.len() as int, idx@),
    ensures
        (final(cues).deep_view(), *final(current)) == remove_each_rev(
            old(cues).deep_view(),
            idx@,
            *old(current),
        ),
{
    let ghost target = remove_each_rev(old(cues).deep_view(), idx@, *old(current));
    let mut k = idx.len();
    assert(idx@.take(k as int) =~= idx@);
    while k > 0
        invariant
            k <= idx@.len(),
            remove_each_rev(cues.deep_view(), idx@.take(k as int), *current) == target,
            removals_fit(cues@.len() as int, idx@.take(k as int)),
        decreases k,
    {
        proof {
            lemma_take_step(idx@, k as int);
        }
        let x = idx[k - 1];
        crate::seqs::remove_at(cues, x);
        if x < *current {
            *current = *current - 1;
        }
        k = k - 1;
    }
    assert(idx@.take(0) =~= Seq::<usize>::empty());
}

/// Deletes the selected cues of `cues`.
fn delete_selected_in<T: DeepView>(cues: &mut Vec<T>, mode: &mut AppMode)
    requires
        removals_fit(old(cues)@.len() as int, selected_indices(old(mode).deep_view())),
    ensures
        (final(cues).deep_view(), final(mode).deep_view()) == delete_selected_on(
            old(cues).deep_view(),
            old(mode).deep_view(),
        ),
{
    match mode {
        AppMode::Normal => {},
        AppMode::Select { cue_index, selected_cues } => {
            remove_each_rev_exec(cues, selected_cues, cue_index);
            *selected_cues = Vec::new();
            assert(selected_cues@ =~= Seq::<usize>::empty());
        },
        AppMode::Edit { cursor, selected_cues } => {
            let idx = edit_index_vec(selected_cues);
            let mut i = cursor.cue_index;
            remove_each_rev_exec(cues, &idx, &mut i);
            cursor.cue_index = i;
        },
    }
}

/// The indices of the edited cues.
pub fn edit_index_vec(v: &Vec<crate::mode::EditCue>) -> (r: Vec<usize>)
    ensures
        r@ == edit_indices(v.deep_view()),
{
    let mut r: Vec<usize> = Vec::new();
    let mut i: usize = 0;
    while i < v.len()
        invariant
            i <= v@.len(),
            r@ == edit_indices(v.deep_view()).take(i as int),
        decreases v@.len() - i,
    {
        r.push(v[i].index);
        i = i + 1;
        assert(r@ =~= edit_indices(v.deep_view()).take(i as int));
    }
    assert(edit_indices(v.deep_view()).take(v@.len() as int) =~= edit_indices(v.deep_view()));
    r
}

/// The mode once the cue at `x` is deleted: dropped from the selection and
/// the selection above it moved down.
pub open spec fn mode_after_delete_at(mode: ModeView, x: usize) -> ModeView {
    match mode {
        ModeView::Normal => mode,
        ModeView::Select { cue_index, selected_cues } => ModeView::Select {
            cue_index,
            selected_cues: shift_down_above(without(selected_cues, x), x),
        },
        ModeView::Edit { cursor, selected_cues } => ModeView::Edit {
            cursor,
            selected_cues: shift_edit_down_above(selected_cues, x),
        },
    }
}

/// The cues at the indices of `idx` deleted, the last index first, and the
/// mode following each deletion.
pub open spec fn delete_at_each_rev<A>(cues: Seq<A>, mode: ModeView, idx: Seq<usize>) -> (Seq<A>, ModeView)
    decreases idx.len(),
{
    if idx.len() == 0 {
        (cues, mode)
    } else {
        let x = idx.last();
        delete_at_each_rev(cues.remove(x as int), mode_after_delete_at(mode, x), idx.drop_last())
    }
}

/// The indices of the given cues.
pub open spec fn item_indices(cues: Seq<IndexedCueView>) -> Seq<usize> {
    cues.map_values(|c: IndexedCueView| c.index)
}

/// The indices of the given cues, in increasing order.
pub open spec fn sorted_indices(cues: Seq<IndexedCueView>) -> Seq<usize> {
    item_indices(sort_by_key(cues, key_fn::<IndexedSubtitleCue>()))
}

/// `delete_at_each_rev` for each level of cues; nothing for no cues.
pub open spec fn delete_cues_in(cues: CuesView, mode: ModeView, idx: Seq<usize>) -> (CuesView, ModeView) {
    match cues {
        CuesView::Word(s) => {
            let (c, m) = delete_at_each_rev(s, mode, idx);
            (CuesView::Word(c), m)
        },
        CuesView::Cue(s) => {
            let (c, m) = delete_at_each_rev(s, mode, idx);
            (CuesView::Cue(c), m)
        },
        CuesView::Line(s) => {
            let (c, m) = delete_at_each_rev(s, mode, idx);
            (CuesView::Line(c), m)
        },
        CuesView::Empty => (cues, mode),
    }
}

impl AppStateView {
    /// The state once the given cues are deleted.
    pub open spec fn after_delete_cues(self, cues: Seq<IndexedCueView>) -> AppStateView {
        let s = self.normal_without_track();
        match s.active_cues() {
            Some(c) => {
                let (c2, m2) = delete_cues_in(c, s.mode, sorted_indices(cues));
                s.with_active_cues(c2).with_mode(m2)
            },
            None => s.with_mode(ModeView::Normal),
        }
    }

    /// The given cues can be deleted without going out of bounds.
    pub open spec fn can_delete_cues(self, cues: Seq<IndexedCueView>) -> bool {
        let s = self.normal_without_track();
        s.active_cues() matches Some(c) ==> (c !is Empty ==> removals_fit(
            cues_len(c) as int,
            sorted_indices(cues),
        ))
    }
}

/// Deletes the cues at the indices of `idx`, the last index first, and
/// follows each deletion in the mode.
fn delete_at_each_rev_exec<T: DeepView>(cues: &mut Vec<T>, mode: &mut AppMode, idx: &Vec<usize>)
    requires
        removals_fit(old(cues)@.len() as int, idx@),
    ensures
        (final(cues).deep_view(), final(mode).deep_view()) == delete_at_each_rev(
            old(cues).deep_view(),
            old(mode).deep_view(),
            idx@,
        ),
{
    let ghost target = delete_at_each_rev(old(cues).deep_view(), old(mode).deep_view(), idx@);
    let mut k = idx.len();
    assert(idx@.take(k as int) =~= idx@);
    while k > 0
        invariant
            k <= idx@.len(),
            delete_at_each_rev(cues.deep_view(), mode.deep_view(), idx@.take(k as int)) == target,
            removals_fit(cues@.len() as int, idx@.take(k as int)),
        decreases k,
    {
        proof {
            lemma_take_step(idx@, k as int);
        }
        let x = idx[k - 1];
        crate::seqs::remove_at(cues, x);
        match mode {
            AppMode::Normal => {},
            AppMode::Select { cue_index: _, selected_cues } => {
                *selected_cues = retain_other(selected_cues, x);
                decrement_above(selected_cues, x);
            },
            AppMode::Edit { cursor: _, selected_cues } => {
                decrement_edit_above(selected_cues, x);
            },
        }
        k = k - 1;
    }
    assert(idx@.take(0) =~= Seq::<usize>::empty());
}

/// The indices of the sorted cues.
fn index_vec(v: &Vec<IndexedSubtitleCue>) -> (r: Vec<usize>)
    ensures
        r@ == item_indices(v.deep_view()),
{
    let mut r: Vec<usize> = Vec::new();
    let mut i: usize = 0;
    while i < v.len()
        invariant
            i <= v@.len(),
            r@ == item_indices(v.deep_view()).take(i as int),
        decreases v@.len() - i,
    {
        r.push(v[i].index);
        i = i + 1;
        assert(r@ =~= item_indices(v.deep_view()).take(i as int));
    }
    assert(item_indices(v.deep_view()).take(v@.len() as int) =~= item_indices(v.deep_view()));
    r
}

impl App {
    /// Deletes the selected cues (in the select and edit modes), the last
    /// selected first, keeping the current cue on the same line; the select
    /// mode forgets its selection.
    pub fn delete_selected_lines(&mut self)
        requires
            old(self).wf(),
            old(self).state.deep_view().can_delete_selected_lines(),
        ensures
            final(self).wf(),
            final(self).state.deep_view() == old(self).state.deep_view().after_delete_selected_lines(),
            final(self).keeps_engine(*old(self)),
    {
        if self.state.track.is_none() {
            self.switch_to_normal_mode();
        }
        match self.state.subtitle_documents.active_index() {
            Some(i) => {
                let ghost s = self.state.deep_view();
                let doc = &mut self.state.subtitle_documents.documents[i].state.document;
                match &mut doc.cues {
                    SubtitleCues::Word(cues) => delete_selected_in(cues, &mut self.state.app_mode),
                    SubtitleCues::Cue(cues) => delete_selected_in(cues, &mut self.state.app_mode),
                    SubtitleCues::Line(cues) => delete_selected_in(cues, &mut self.state.app_mode),
                    SubtitleCues::Empty => {},
                }
                proof {
                    let (c2, m2) = delete_selected_cues(s.active_cues()->0, s.mode);
                    crate::state::lemma_with_active_cues(s, c2);
                    assert(self.state.deep_view().documents.entries =~= s.with_active_cues(c2).documents.entries);
                }
            },
            None => self.switch_to_normal_mode(),
        }
    }

    /// Deletes the given cues from the active document, the highest index
    /// first, dropping them from the selection and moving the selection above
    /// them down.
    pub fn delete_cues(&mut self, indexed_cues: Vec<IndexedSubtitleCue>)
        requires
            old(self).wf(),
            old(self).state.deep_view().can_delete_cues(indexed_cues.deep_view()),
        ensures
            final(self).wf(),
            final(self).state.deep_view() == old(self).state.deep_view().after_delete_cues(
                indexed_cues.deep_view(),
            ),
            final(self).keeps_engine(*old(self)),
    {
        let ghost given = indexed_cues.deep_view();
        if self.state.track.is_none() {
            self.switch_to_normal_mode();
        }
        let sorted = sort_by_key_exec(indexed_cues);
        let idx = index_vec(&sorted);
        assert(idx@ == sorted_indices(given));
        match self.state.subtitle_documents.active_index() {
            Some(i) => {
                let ghost s = self.state.deep_view();
                let doc = &mut self.state.subtitle_documents.documents[i].state.document;
                match &mut doc.cues {
                    SubtitleCues::Word(cues) => delete_at_each_rev_exec(cues, &mut self.state.app_mode, &idx),
                    SubtitleCues::Cue(cues) => delete_at_each_rev_exec(cues, &mut self.state.app_mode, &idx),
                    SubtitleCues::Line(cues) => delete_at_each_rev_exec(cues, &mut self.state.app_mode, &idx),
                    SubtitleCues::Empty => {},
                }
                proof {
                    let (c2, m2) = delete_cues_in(s.active_cues()->0, s.mode, idx@);
                    crate::state::lemma_with_active_cues(s, c2);
                    assert(self.state.deep_view().documents.entries =~= s.with_active_cues(c2).documents.entries);
                }
            },
            None => self.switch_to_normal_mode(),
        }
    }
}

// ---------------------------------------------------------------------------
// What deleting the selected cues does.

/// How many of the indices `idx` are below `i`.
pub open spec fn count_below(idx: Seq<usize>, i: int) -> int
    decreases idx.len(),
{
    if idx.len() == 0 {
        0
    } else {
        count_below(idx.drop_last(), i) + if idx.last() < i { 1int } else { 0int }
    }
}

proof fn lemma_count_below_all(idx: Seq<usize>, i: int)
    requires
        forall|k: int| 0 <= k < idx.len() ==> idx[k] < i,
    ensures
        count_below(idx, i) == idx.len(),
    decreases idx.len(),
{
    if idx.len() > 0 {
        let d = idx.drop_last();
        assert forall|k: int| 0 <= k < d.len() implies d[k] < i by {
            assert(d[k] == idx[k]);
        }
        lemma_count_below_all(d, i);
        assert(idx.last() == idx[idx.len() - 1]);
    }
}

/// Removing the cues at increasing indices, the last first, keeps every other
/// cue, in order, moved down by the number of removed cues before it; the
/// current index moves down by the number of removed cues below it.
pub proof fn law_remove_each_rev<A>(cues: Seq<A>, idx: Seq<usize>, current: usize)
    requires
        forall|a: int, b: int| 0 <= a < b < idx.len() ==> idx[a] < idx[b],
        forall|k: int| 0 <= k < idx.len() ==> idx[k] < cues.len(),
        cues.len() <= usize::MAX,
    ensures
        remove_each_rev(cues, idx, current).0.len() == cues.len() - idx.len(),
        remove_each_rev(cues, idx, current).1 == current - count_below(idx, current as int),
        forall|j: int| 0 <= j < cues.len() && !idx.contains(j as usize)
            ==> remove_each_rev(cues, idx, current).0[j - count_below(idx, j)] == #[trigger] cues[j],
    decreases idx.len(),
{
    if idx.len() > 0 {
        let x = idx.last();
        let d = idx.drop_last();
        let c2 = cues.remove(x as int);
        let cur2: usize = if x < current { (current - 1) as usize } else { current };
        assert(x == idx[idx.len() - 1]);
        assert forall|a: int, b: int| 0 <= a < b < d.len() implies d[a] < d[b] by {
            assert(d[a] == idx[a] && d[b] == idx[b]);
        }
        assert forall|k: int| 0 <= k < d.len() implies d[k] < x by {
            assert(d[k] == idx[k]);
        }
        assert forall|k: int| 0 <= k < d.len() implies d[k] < c2.len() by {
            assert(d[k] == idx[k]);
        }
        law_remove_each_rev(c2, d, cur2);
        if x < current {
            lemma_count_below_all(d, current as int);
            lemma_count_below_all(d, current - 1);
        }
        assert forall|j: int| 0 <= j < cues.len() && !idx.contains(j as usize)
            implies remove_each_rev(cues, idx, current).0[j - count_below(idx, j)] == #[trigger] cues[j] by {
            if j < x {
                assert(c2[j] == cues[j]);
                assert(!d.contains(j as usize)) by {
                    if d.contains(j as usize) {
                        let k = choose|k: int| 0 <= k < d.len() && d[k] == j as usize;
                        assert(idx[k] == d[k]);
                    }
                }
            } else {
                assert(j != x) by {
                    assert(idx[idx.len() - 1] == x);
                }
                assert(c2[j - 1] == cues[j]);
                assert(!d.contains((j - 1) as usize)) by {
                    if d.contains((j - 1) as usize) {
                        let k = choose|k: int| 0 <= k < d.len() && d[k] == (j - 1) as usize;
                        assert(d[k] < x);
                    }
                }
                lemma_count_below_all(d, j);
                lemma_count_below_all(d, j - 1);
            }
        }
    }
}

/// The cues `c2` hold every cue of `c` whose index is not in `idx`, in order,
/// each moved down by the number of indices of `idx` below it, and nothing
/// else.
pub open spec fn keeps_all_but(c: CuesView, c2: CuesView, idx: Seq<usize>) -> bool {
    &&& cues_len(c2) == cues_len(c) - idx.len()
    &&& match (c, c2) {
        (CuesView::Word(q), CuesView::Word(q2)) => forall|j: int| 0 <= j < q.len() && !idx.contains(j as usize)
            ==> q2[j - count_below(idx, j)] == #[trigger] q[j],
        (CuesView::Cue(q), CuesView::Cue(q2)) => forall|j: int| 0 <= j < q.len() && !idx.contains(j as usize)
            ==> q2[j - count_below(idx, j)] == #[trigger] q[j],
        (CuesView::Line(q), CuesView::Line(q2)) => forall|j: int| 0 <= j < q.len() && !idx.contains(j as usize)
            ==> q2[j - count_below(idx, j)] == #[trigger] q[j],
        _ => false,
    }
}

/// Deleting the selected cues (given in increasing order, each a cue of the
/// document) keeps every other cue in order, and the current index moves down
/// by the number of deleted cues below it, so that it names the cue it named
/// (where that cue was not deleted). The select mode's selection is cleared;
/// the edit mode keeps its edited cues.
pub proof fn law_delete_selected_lines(s: AppStateView)
    requires
        s.documents.wf(),
        s.track is Some,
        s.active_cues() matches Some(c) && !(c is Empty),
        !(s.mode is Normal),
        forall|a: int, b: int| 0 <= a < b < selected_indices(s.mode).len()
            ==> selected_indices(s.mode)[a] < selected_indices(s.mode)[b],
        forall|k: int| 0 <= k < selected_indices(s.mode).len()
            ==> selected_indices(s.mode)[k] < cues_len(s.active_cues()->0),
        cues_len(s.active_cues()->0) <= usize::MAX,
    ensures
        ({
            let t = s.after_delete_selected_lines();
            let sel = selected_indices(s.mode);
            &&& t.active_cues() matches Some(c2) && keeps_all_but(s.active_cues()->0, c2, sel)
            &&& match s.mode {
                ModeView::Select { cue_index, .. } => t.mode == ModeView::Select {
                    cue_index: (cue_index - count_below(sel, cue_index as int)) as usize,
                    selected_cues: Seq::empty(),
                },
                ModeView::Edit { cursor, selected_cues } => t.mode == ModeView::Edit {
                    cursor: crate::mode::Cursor {
                        cue_index: (cursor.cue_index - count_below(sel, cursor.cue_index as int)) as usize,
                        ..cursor
                    },
                    selected_cues,
                },
                ModeView::Normal => true,
            }
        }),
{
    let c = s.active_cues()->0;
    let sel = selected_indices(s.mode);
    let cur = current_index(s.mode)->0;
    let (c2, m2) = delete_selected_cues(c, s.mode);
    crate::state::lemma_with_active_cues(s, c2);
    match c {
        CuesView::Word(q) => law_remove_each_rev(q, sel, cur),
        CuesView::Cue(q) => law_remove_each_rev(q, sel, cur),
        CuesView::Line(q) => law_remove_each_rev(q, sel, cur),
        CuesView::Empty => {},
    }
}

// ---------------------------------------------------------------------------
// What deleting the current cue does.

/// `c2` is `c` with the cue at `p` taken out: the cues before `p` kept, those
/// after it one place down.
pub open spec fn removed_at(c: CuesView, c2: CuesView, p: int) -> bool {
    &&& cues_len(c2) + 1 == cues_len(c)
    &&& match (c, c2) {
        (CuesView::Word(q), CuesView::Word(q2)) => (forall|k: int| 0 <= k < p ==> q2[k] == #[trigger] q[k])
            && (forall|k: int| p < k < q.len() ==> q2[k - 1] == #[trigger] q[k]),
        (CuesView::Cue(q), CuesView::Cue(q2)) => (forall|k: int| 0 <= k < p ==> q2[k] == #[trigger] q[k])
            && (forall|k: int| p < k < q.len() ==> q2[k - 1] == #[trigger] q[k]),
        (CuesView::Line(q), CuesView::Line(q2)) => (forall|k: int| 0 <= k < p ==> q2[k] == #[trigger] q[k])
            && (forall|k: int| p < k < q.len() ==> q2[k - 1] == #[trigger] q[k]),
        _ => false,
    }
}

proof fn lemma_without_contains(s: Seq<usize>, x: usize)
    ensures
        forall|v: usize| #[trigger] without(s, x).contains(v) <==> (s.contains(v) && v != x),
    decreases s.len(),
{
    if s.len() > 0 {
        let d = s.drop_last();
        lemma_without_contains(d, x);
        let r = without(d, x);
        assert forall|v: usize| #[trigger] without(s, x).contains(v) <==> (s.contains(v) && v != x) by {
            if s.contains(v) && v != x {
                let k = choose|k: int| 0 <= k < s.len() && s[k] == v;
                if k < d.len() {
                    assert(d[k] == v);
                    assert(d.contains(v));
                    assert(r.contains(v));
                    let m = choose|m: int| 0 <= m < r.len() && r[m] == v;
                    if s.last() != x {
                        assert(r.push(s.last())[m] == v);
                    } else {
                        assert(without(s, x) == r);
                    }
                } else {
                    assert(s.last() == v);
                    assert(r.push(s.last())[r.len() as int] == v);
                }
            }
            if without(s, x).contains(v) {
                if s.last() != x {
                    let k = choose|k: int| 0 <= k < r.push(s.last()).len() && r.push(s.last())[k] == v;
                    if k < r.len() {
                        assert(r[k] == v);
                        assert(r.contains(v));
                        let m = choose|m: int| 0 <= m < d.len() && d[m] == v;
                        assert(s[m] == v);
                    } else {
                        assert(s[s.len() - 1] == v);
                    }
                } else {
                    assert(r.contains(v));
                    let m = choose|m: int| 0 <= m < d.len() && d[m] == v;
                    assert(s[m] == v);
                }
            }
        }
    }
}

/// With a track, in the select mode on cue `i` of a document with cues,
/// deleting the current line takes out the cue at `i` and keeps the others in
/// order; the current index stays at `i`, and the selection loses `i` and
/// keeps every other selected index.
pub proof fn law_delete_current_line(s: AppStateView)
    requires
        s.documents.wf(),
        s.track is Some,
        s.active_cues() matches Some(c) && !(c is Empty),
        s.mode matches ModeView::Select { cue_index, .. } && cue_index < cues_len(s.active_cues()->0),
    ensures
        match s.mode {
            ModeView::Select { cue_index, selected_cues } => {
                let t = s.after_delete_current_line();
                &&& t.active_cues() matches Some(c2) && removed_at(s.active_cues()->0, c2, cue_index as int)
                &&& t.mode matches ModeView::Select { cue_index: j, selected_cues: sel2 } && j == cue_index
                    && forall|v: usize| #[trigger] sel2.contains(v) <==> (selected_cues.contains(v) && v != cue_index)
            },
            _ => false,
        },
{
    let c = s.active_cues()->0;
    let (c2, m2) = delete_current_cues(c, s.mode);
    crate::state::lemma_with_active_cues(s, c2);
    match s.mode {
        ModeView::Select { cue_index, selected_cues } => lemma_without_contains(selected_cues, cue_index),
        _ => {},
    }
}

// ---------------------------------------------------------------------------
// What deleting given cues does.

proof fn lemma_delete_rev_cues<A>(q: Seq<A>, m: ModeView, idx: Seq<usize>, cur: usize)
    ensures
        delete_at_each_rev(q, m, idx).0 == remove_each_rev(q, idx, cur).0,
    decreases idx.len(),
{
    if idx.len() > 0 {
        let x = idx.last();
        lemma_delete_rev_cues(q.remove(x as int), mode_after_delete_at(m, x), idx.drop_last(),
            if x < cur { (cur - 1) as usize } else { cur });
    }
}

/// Deleting given cues (each at its own index, a cue of the document) takes
/// out exactly the cues at their indices and keeps every other cue, in order,
/// moved down by the number of deleted cues before it.
pub proof fn law_delete_cues(s: AppStateView, items: Seq<IndexedCueView>)
    requires
        s.documents.wf(),
        s.active_cues() matches Some(c) && !(c is Empty) && cues_len(c) <= usize::MAX,
        forall|k: int| 0 <= k < items.len() ==> (#[trigger] items[k]).index < cues_len(s.active_cues()->0),
        crate::sort::distinct_keys(items, key_fn::<IndexedSubtitleCue>()),
    ensures
        s.after_delete_cues(items).active_cues() matches Some(c2) && keeps_all_but(s.active_cues()->0, c2, sorted_indices(items)),
        forall|j: usize| #[trigger] sorted_indices(items).contains(j) <==> exists|k: int| 0 <= k < items.len() && (#[trigger] items[k]).index == j,
{
    let c = s.active_cues()->0;
    let key = key_fn::<IndexedSubtitleCue>();
    let sorted = sort_by_key(items, key);
    crate::sort::lemma_sort_sorted(items, key);
    crate::sort::lemma_sort_keeps_all(items, key, key);
    crate::sort::lemma_sort_len(items, key);
    let idx = sorted_indices(items);
    assert(idx == item_indices(sorted));
    assert forall|a: int, b: int| 0 <= a < b < idx.len() implies idx[a] < idx[b] by {
        assert(key(sorted[a]) < key(sorted[b]));
    }
    assert forall|k: int| 0 <= k < idx.len() implies idx[k] < cues_len(c) by {
        assert(items.contains(sorted[k]));
    }
    assert forall|j: usize| #[trigger] idx.contains(j) <==> exists|k: int| 0 <= k < items.len() && (#[trigger] items[k]).index == j by {
        if idx.contains(j) {
            let m = choose|m: int| 0 <= m < idx.len() && idx[m] == j;
            assert(items.contains(sorted[m]));
            let k = choose|k: int| 0 <= k < items.len() && items[k] == sorted[m];
            assert(items[k].index == j);
        }
        if exists|k: int| 0 <= k < items.len() && (#[trigger] items[k]).index == j {
            let k = choose|k: int| 0 <= k < items.len() && (#[trigger] items[k]).index == j;
            assert(sorted.contains(items[k]));
            let m = choose|m: int| 0 <= m < sorted.len() && sorted[m] == items[k];
            assert(idx[m] == j);
        }
    }
    let n = s.normal_without_track();
    let (c2, m2) = delete_cues_in(c, n.mode, idx);
    crate::state::lemma_with_active_cues(n, c2);
    match c {
        CuesView::Word(q) => {
            lemma_delete_rev_cues(q, n.mode, idx, 0);
            law_remove_each_rev(q, idx, 0);
        },
        CuesView::Cue(q) => {
            lemma_delete_rev_cues(q, n.mode, idx, 0);
            law_remove_each_rev(q, idx, 0);
        },
        CuesView::Line(q) => {
            lemma_delete_rev_cues(q, n.mode, idx, 0);
            law_remove_each_rev(q, idx, 0);
        },
        CuesView::Empty => {},
    }
}

} // verus!

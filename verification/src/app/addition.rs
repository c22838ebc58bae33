//! Adding cues: a blank cue next to the current one or at each selected cue,
//! or given cues at their indices.

use vstd::prelude::*;

use crate::app::deletion::{cues_len, mode_after_delete_at};
use crate::app::{increment_above, increment_edit_above, shift_edit_up_above, shift_up_above, App};
use crate::cues::{new_cue_id, AlignedCue, Cue, CueItem, CuesView, Line, SubtitleCues};
use crate::history::{IndexedCueView, IndexedSubtitleCue};
use crate::mode::{AppMode, Cursor, EditCue, EditCueView, ModeView};
use crate::sort::{key_fn, sort_by_key, sort_by_key_exec};
use crate::state::AppStateView;

verus! {

/// The selected indices moved up by one where they are at least `t`
/// (`after`: where one more than them is at least `t`).
pub open spec fn shift_ins(s: Seq<usize>, t: usize, after: bool) -> Seq<usize> {
    s.map_values(
        |c: usize|
            if (if after { c + 1 >= t } else { c >= t }) {
                (c + 1) as usize
            } else {
                c
            },
    )
}

/// The edited cues moved up by one where they are at least `t`
/// (`after`: where one more than them is at least `t`).
pub open spec fn shift_edit_ins(s: Seq<EditCueView>, t: usize, after: bool) -> Seq<EditCueView> {
    s.map_values(
        |e: EditCueView|
            if (if after { e.index + 1 >= t } else { e.index >= t }) {
                EditCueView { index: (e.index + 1) as usize, ..e }
            } else {
                e
            },
    )
}

/// No selected index is `usize::MAX`.
pub open spec fn below_max(s: Seq<usize>) -> bool {
    forall|k: int| 0 <= k < s.len() ==> s[k] < usize::MAX
}

/// No edited cue is at `usize::MAX`.
pub open spec fn edit_below_max(s: Seq<EditCueView>) -> bool {
    forall|k: int| 0 <= k < s.len() ==> s[k].index < usize::MAX
}

fn shift_ins_exec(v: &mut Vec<usize>, t: usize, after: bool)
    requires
        below_max(old(v)@),
    ensures
        final(v)@ == shift_ins(old(v)@, t, after),
{
    let n = v.len();
    let mut i: usize = 0;
    while i < n
        invariant
            n == old(v)@.len(),
            v@.len() == n,
            i <= n,
            below_max(old(v)@),
            forall|k: int| 0 <= k < i ==> v@[k] == shift_ins(old(v)@, t, after)[k],
            forall|k: int| i <= k < n ==> v@[k] == old(v)@[k],
        decreases n - i,
    {
        let c = v[i];
        let hit = if after { c + 1 >= t } else { c >= t };
        if hit {
            v[i] = c + 1;
        }
        i = i + 1;
    }
    assert(v@ =~= shift_ins(old(v)@, t, after));
}

fn shift_edit_ins_exec(v: &mut Vec<EditCue>, t: usize, after: bool)
    requires
        edit_below_max(old(v).deep_view()),
    ensures
        final(v).deep_view() == shift_edit_ins(old(v).deep_view(), t, after),
{
    let n = v.len();
    let mut i: usize = 0;
    while i < n
        invariant
            n == old(v)@.len(),
            v@.len() == n,
            i <= n,
            edit_below_max(old(v).deep_view()),
            forall|k: int| 0 <= k < i ==> #[trigger] v@[k].index == shift_edit_ins(old(v).deep_view(), t, after)[k].index,
            forall|k: int| 0 <= k < n ==> #[trigger] v@[k].original_content == old(v)@[k].original_content,
            forall|k: int| i <= k < n ==> #[trigger] v@[k].index == old(v)@[k].index,
        decreases n - i,
    {
        let e = &mut v[i];
        assert(e.index == old(v).deep_view()[i as int].index);
        let hit = if after { e.index + 1 >= t } else { e.index >= t };
        if hit {
            e.index = e.index + 1;
        }
        i = i + 1;
    }
    assert(v.deep_view() =~= shift_edit_ins(old(v).deep_view(), t, after)) by {
        assert forall|k: int| 0 <= k < n implies v.deep_view()[k] == shift_edit_ins(old(v).deep_view(), t, after)[k] by {
            assert(v@[k].index == shift_edit_ins(old(v).deep_view(), t, after)[k].index);
            assert(v@[k].original_content == old(v)@[k].original_content);
        }
    }
}

// ---------------------------------------------------------------------------
// A blank cue after the current cue.

/// A blank cue after the current one (with its times). In the edit mode the
/// edited cues from one before the current one on move up; in the select
/// mode so do the selected ones, where `shift_select`.
pub open spec fn add_after_current_on<T: CueItem>(cues: Seq<T::V>, mode: ModeView, id: u128, shift_select: bool) -> (Seq<T::V>, ModeView) {
    match mode {
        ModeView::Normal => (cues, mode),
        ModeView::Select { cue_index, selected_cues } => if cue_index < cues.len() {
            (
                cues.insert(cue_index + 1, T::view_blank(id, cues[cue_index as int], cues[cue_index as int])),
                ModeView::Select {
                    cue_index,
                    selected_cues: if shift_select {
                        shift_ins(selected_cues, cue_index, true)
                    } else {
                        selected_cues
                    },
                },
            )
        } else {
            (cues, mode)
        },
        ModeView::Edit { cursor, selected_cues } => if cursor.cue_index < cues.len() {
            (
                cues.insert(cursor.cue_index + 1, T::view_blank(id, cues[cursor.cue_index as int], cues[cursor.cue_index as int])),
                ModeView::Edit { cursor, selected_cues: shift_edit_ins(selected_cues, cursor.cue_index, true) },
            )
        } else {
            (cues, mode)
        },
    }
}

/// The selection can be moved up without overflow.
pub open spec fn selection_below_max(mode: ModeView, select_too: bool) -> bool {
    match mode {
        ModeView::Normal => true,
        ModeView::Select { selected_cues, .. } => select_too ==> below_max(selected_cues),
        ModeView::Edit { selected_cues, .. } => edit_below_max(selected_cues),
    }
}

fn add_after_current_in<T: CueItem>(cues: &mut Vec<T>, mode: &mut AppMode, id: u128, shift_select: bool)
    requires
        selection_below_max(old(mode).deep_view(), shift_select),
    ensures
        (final(cues).deep_view(), final(mode).deep_view()) == add_after_current_on::<T>(
            old(cues).deep_view(),
            old(mode).deep_view(),
            id,
            shift_select,
        ),
{
    match mode {
        AppMode::Normal => {},
        AppMode::Select { cue_index, selected_cues } => {
            if cues.len() > *cue_index {
                let b = T::blank(id, &cues[*cue_index], &cues[*cue_index]);
                crate::seqs::insert_at(cues, *cue_index + 1, b);
                if shift_select {
                    shift_ins_exec(selected_cues, *cue_index, true);
                }
            }
        },
        AppMode::Edit { cursor, selected_cues } => {
            if cues.len() > cursor.cue_index {
                let b = T::blank(id, &cues[cursor.cue_index], &cues[cursor.cue_index]);
                crate::seqs::insert_at(cues, cursor.cue_index + 1, b);
                shift_edit_ins_exec(selected_cues, cursor.cue_index, true);
            }
        },
    }
}

/// `add_after_current_on` for each level of cues (the selection moves only
/// for word-aligned cues); nothing for no cues.
pub open spec fn add_after_current_cues(cues: CuesView, mode: ModeView, id: u128) -> (CuesView, ModeView) {
    match cues {
        CuesView::Word(s) => {
            let (c, m) = add_after_current_on::<AlignedCue>(s, mode, id, true);
            (CuesView::Word(c), m)
        },
        CuesView::Cue(s) => {
            let (c, m) = add_after_current_on::<Cue>(s, mode, id, false);
            (CuesView::Cue(c), m)
        },
        CuesView::Line(s) => {
            let (c, m) = add_after_current_on::<Line>(s, mode, id, false);
            (CuesView::Line(c), m)
        },
        CuesView::Empty => (cues, mode),
    }
}

// ---------------------------------------------------------------------------
// A blank cue before the current cue.

/// A blank cue before the current one (with its times); the current cue, and
/// the selected or edited cues from it on, move up. For word-aligned cues in
/// the edit mode the cursor moves down a line as `Cursor::move_down` does.
pub open spec fn add_before_current_on<T: CueItem>(cues: Seq<T::V>, mode: ModeView, id: u128, move_down: bool) -> (Seq<T::V>, ModeView) {
    match mode {
        ModeView::Normal => (cues, mode),
        ModeView::Select { cue_index, selected_cues } => if cue_index < cues.len() {
            (
                cues.insert(cue_index as int, T::view_blank(id, cues[cue_index as int], cues[cue_index as int])),
                ModeView::Select {
                    cue_index: (cue_index + 1) as usize,
                    selected_cues: shift_ins(selected_cues, cue_index, false),
                },
            )
        } else {
            (cues, mode)
        },
        ModeView::Edit { cursor, selected_cues } => if cursor.cue_index < cues.len() {
            let ci = cursor.cue_index;
            let c2 = cues.insert(ci as int, T::view_blank(id, cues[ci as int], cues[ci as int]));
            (
                c2,
                ModeView::Edit {
                    cursor: if move_down {
                        Cursor {
                            cue_index: (ci + 1) as usize,
                            active_column: crate::mode::min_nat(
                                cursor.target_column as int,
                                T::view_text_len(c2[ci + 1]) as int,
                            ) as usize,
                            target_column: cursor.target_column,
                        }
                    } else {
                        Cursor { cue_index: (ci + 1) as usize, ..cursor }
                    },
                    selected_cues: shift_edit_ins(selected_cues, ci, false),
                },
            )
        } else {
            (cues, mode)
        },
    }
}

fn add_before_current_in<T: CueItem>(cues: &mut Vec<T>, mode: &mut AppMode, id: u128, move_down: bool)
    requires
        selection_below_max(old(mode).deep_view(), true),
    ensures
        (final(cues).deep_view(), final(mode).deep_view()) == add_before_current_on::<T>(
            old(cues).deep_view(),
            old(mode).deep_view(),
            id,
            move_down,
        ),
{
    match mode {
        AppMode::Normal => {},
        AppMode::Select { cue_index, selected_cues } => {
            if cues.len() > *cue_index {
                let b = T::blank(id, &cues[*cue_index], &cues[*cue_index]);
                crate::seqs::insert_at(cues, *cue_index, b);
                shift_ins_exec(selected_cues, *cue_index, false);
                *cue_index = *cue_index + 1;
            }
        },
        AppMode::Edit { cursor, selected_cues } => {
            if cues.len() > cursor.cue_index {
                let b = T::blank(id, &cues[cursor.cue_index], &cues[cursor.cue_index]);
                crate::seqs::insert_at(cues, cursor.cue_index, b);
                shift_edit_ins_exec(selected_cues, cursor.cue_index, false);
                if move_down {
                    let line_length = cues[cursor.cue_index + 1].text_len();
                    cursor.move_down(line_length, cues.len());
                } else {
                    cursor.cue_index = cursor.cue_index + 1;
                }
            }
        },
    }
}

/// `add_before_current_on` for each level of cues; nothing for no cues.
pub open spec fn add_before_current_cues(cues: CuesView, mode: ModeView, id: u128) -> (CuesView, ModeView) {
    match cues {
        CuesView::Word(s) => {
            let (c, m) = add_before_current_on::<AlignedCue>(s, mode, id, true);
            (CuesView::Word(c), m)
        },
        CuesView::Cue(s) => {
            let (c, m) = add_before_current_on::<Cue>(s, mode, id, false);
            (CuesView::Cue(c), m)
        },
        CuesView::Line(s) => {
            let (c, m) = add_before_current_on::<Line>(s, mode, id, false);
            (CuesView::Line(c), m)
        },
        CuesView::Empty => (cues, mode),
    }
}

impl AppStateView {
    /// The state once a blank cue is added after the current one.
    pub open spec fn after_add_cue_after_current(self, id: u128) -> AppStateView {
        let s = self.normal_without_track();
        match s.active_cues() {
            Some(c) => {
                let (c2, m2) = add_after_current_cues(c, s.mode, id);
                s.with_active_cues(c2).with_mode(m2)
            },
            None => s.with_mode(ModeView::Normal),
        }
    }

    /// The state once a blank cue is added before the current one.
    pub open spec fn after_add_cue_before_current(self, id: u128) -> AppStateView {
        let s = self.normal_without_track();
        match s.active_cues() {
            Some(c) => {
                let (c2, m2) = add_before_current_cues(c, s.mode, id);
                s.with_active_cues(c2).with_mode(m2)
            },
            None => s.with_mode(ModeView::Normal),
        }
    }

    /// Adding next to the current cue moves the selection without overflow.
    pub open spec fn can_add_next_to_current(self, after: bool) -> bool {
        let s = self.normal_without_track();
        s.active_cues() matches Some(c) ==> selection_below_max(
            s.mode,
            !after || c is Word,
        )
    }
}

impl App {
    /// Adds a blank cue with identity `id` after the current cue (select and
    /// edit modes), timed like it.
    pub fn add_cue_after_current_cue_with_id(&mut self, id: u128)
        requires
            old(self).wf(),
            old(self).state.deep_view().can_add_next_to_current(true),
        ensures
            final(self).wf(),
            final(self).state.deep_view() == old(self).state.deep_view().after_add_cue_after_current(id),
            final(self).keeps_engine(*old(self)),
    {
        if self.state.track.is_none() {
            self.switch_to_normal_mode();
        }
        match self.state.subtitle_documents.active_index() {
            Some(i) => {
                let ghost s = self.state.deep_view();
                let doc = &mut self.state.subtitle_documents.documents[i].state.document;
                match &mut doc.cues {
                    SubtitleCues::Word(cues) => add_after_current_in(cues, &mut self.state.app_mode, id, true),
                    SubtitleCues::Cue(cues) => add_after_current_in(cues, &mut self.state.app_mode, id, false),
                    SubtitleCues::Line(cues) => add_after_current_in(cues, &mut self.state.app_mode, id, false),
                    SubtitleCues::Empty => {},
                }
                proof {
                    let (c2, m2) = add_after_current_cues(s.active_cues()->0, s.mode, id);
                    crate::state::lemma_with_active_cues(s, c2);
                    assert(self.state.deep_view().documents.entries =~= s.with_active_cues(c2).documents.entries);
                }
            },
            None => self.switch_to_normal_mode(),
        }
    }

    /// Adds a blank cue with a fresh random identity after the current cue.
    pub fn add_cue_after_current_cue(&mut self)
        requires
            old(self).wf(),
            old(self).state.deep_view().can_add_next_to_current(true),
        ensures
            final(self).wf(),
            exists|id: u128| crate::cues::is_random_uuid(id) && final(self).state.deep_view()
                == old(self).state.deep_view().after_add_cue_after_current(id),
            final(self).keeps_engine(*old(self)),
    {
        let id = new_cue_id();
        self.add_cue_after_current_cue_with_id(id);
    }

    /// Adds a blank cue with identity `id` before the current cue (select and
    /// edit modes), timed like it; the current cue stays current.
    pub fn add_cue_before_current_cue_with_id(&mut self, id: u128)
        requires
            old(self).wf(),
            old(self).state.deep_view().can_add_next_to_current(false),
        ensures
            final(self).wf(),
            final(self).state.deep_view() == old(self).state.deep_view().after_add_cue_before_current(id),
            final(self).keeps_engine(*old(self)),
    {
        if self.state.track.is_none() {
            self.switch_to_normal_mode();
        }
        match self.state.subtitle_documents.active_index() {
            Some(i) => {
                let ghost s = self.state.deep_view();
                let doc = &mut self.state.subtitle_documents.documents[i].state.document;
                match &mut doc.cues {
                    SubtitleCues::Word(cues) => add_before_current_in(cues, &mut self.state.app_mode, id, true),
                    SubtitleCues::Cue(cues) => add_before_current_in(cues, &mut self.state.app_mode, id, false),
                    SubtitleCues::Line(cues) => add_before_current_in(cues, &mut self.state.app_mode, id, false),
                    SubtitleCues::Empty => {},
                }
                proof {
                    let (c2, m2) = add_before_current_cues(s.active_cues()->0, s.mode, id);
                    crate::state::lemma_with_active_cues(s, c2);
                    assert(self.state.deep_view().documents.entries =~= s.with_active_cues(c2).documents.entries);
                }
            },
            None => self.switch_to_normal_mode(),
        }
    }

    /// Adds a blank cue with a fresh random identity before the current cue.
    pub fn add_cue_before_current_cue(&mut self)
        requires
            old(self).wf(),
            old(self).state.deep_view().can_add_next_to_current(false),
        ensures
            final(self).wf(),
            exists|id: u128| crate::cues::is_random_uuid(id) && final(self).state.deep_view()
                == old(self).state.deep_view().after_add_cue_before_current(id),
            final(self).keeps_engine(*old(self)),
    {
        let id = new_cue_id();
        self.add_cue_before_current_cue_with_id(id);
    }
}

// ---------------------------------------------------------------------------
// A blank cue at each selected cue.

/// Blank cues put in one by one for the first `k` positions of `pos`: the
/// `i`-th at `pos[i] + i` (where the earlier ones have moved its cue), timed
/// from that cue's start to the end of cue `end_index`.
pub open spec fn blank_at_each<T: CueItem>(cues: Seq<T::V>, pos: Seq<usize>, end_index: usize, ids: Seq<u128>, k: nat) -> Seq<T::V>
    decreases k,
{
    if k == 0 {
        cues
    } else {
        let c = blank_at_each::<T>(cues, pos, end_index, ids, (k - 1) as nat);
        let i = k - 1;
        let idx = pos[i] + i;
        c.insert(idx, T::view_blank(ids[i], c[idx], c[end_index as int]))
    }
}

pub proof fn lemma_blank_at_each_len<T: CueItem>(cues: Seq<T::V>, pos: Seq<usize>, end_index: usize, ids: Seq<u128>, k: nat)
    requires
        k <= pos.len(),
        forall|i: int| 0 <= i < k ==> pos[i] <= cues.len(),
    ensures
        blank_at_each::<T>(cues, pos, end_index, ids, k).len() == cues.len() + k,
    decreases k,
{
    if k > 0 {
        lemma_blank_at_each_len::<T>(cues, pos, end_index, ids, (k - 1) as nat);
    }
}

/// Each selected position is moved past the blank cue put before it.
pub open spec fn moved_past(pos: Seq<usize>) -> Seq<usize> {
    Seq::new(pos.len(), |i: int| (pos[i] + i + 1) as usize)
}

/// Each edited cue is moved past the blank cue put before it.
pub open spec fn edit_moved_past(sel: Seq<EditCueView>) -> Seq<EditCueView> {
    Seq::new(sel.len(), |i: int| EditCueView { index: (sel[i].index + i + 1) as usize, ..sel[i] })
}

/// A blank cue before each selected cue, and the selection moved past them.
pub open spec fn add_at_selected_on<T: CueItem>(cues: Seq<T::V>, mode: ModeView, ids: Seq<u128>) -> (Seq<T::V>, ModeView) {
    match mode {
        ModeView::Normal => (cues, mode),
        ModeView::Select { cue_index, selected_cues } => (
            blank_at_each::<T>(cues, selected_cues, cue_index, ids, selected_cues.len()),
            ModeView::Select { cue_index, selected_cues: moved_past(selected_cues) },
        ),
        ModeView::Edit { cursor, selected_cues } => (
            blank_at_each::<T>(cues, crate::app::edit_indices(selected_cues), cursor.cue_index, ids, selected_cues.len()),
            ModeView::Edit { cursor, selected_cues: edit_moved_past(selected_cues) },
        ),
    }
}

/// Every selected cue is a cue of the document (or, for cues without times,
/// at most one past the last), so is the current one where times are read,
/// and no index overflows.
pub open spec fn selected_fit(len: nat, pos: Seq<usize>, current: usize, timed: bool) -> bool {
    &&& forall|i: int| 0 <= i < pos.len() ==> if timed { pos[i] < len } else { pos[i] <= len }
    &&& (timed && pos.len() > 0 ==> current < len)
    &&& forall|i: int| 0 <= i < pos.len() ==> pos[i] + pos.len() < usize::MAX
}

/// The positions and current cue of the selection of `mode`.
pub open spec fn selection_positions(mode: ModeView) -> (Seq<usize>, usize) {
    match mode {
        ModeView::Normal => (Seq::empty(), 0),
        ModeView::Select { cue_index, selected_cues } => (selected_cues, cue_index),
        ModeView::Edit { cursor, selected_cues } => (crate::app::edit_indices(selected_cues), cursor.cue_index),
    }
}

fn add_at_selected_in<T: CueItem>(cues: &mut Vec<T>, mode: &mut AppMode, ids: &Vec<u128>)
    requires
        selected_fit(old(cues)@.len(), selection_positions(old(mode).deep_view()).0, selection_positions(old(mode).deep_view()).1, T::timed()),
        ids@.len() >= selection_positions(old(mode).deep_view()).0.len(),
    ensures
        (final(cues).deep_view(), final(mode).deep_view()) == add_at_selected_on::<T>(
            old(cues).deep_view(),
            old(mode).deep_view(),
            ids@,
        ),
{
    let ghost c0 = old(cues).deep_view();
    match mode {
        AppMode::Normal => {},
        AppMode::Select { cue_index, selected_cues } => {
            let ghost pos = selected_cues@;
            let n = selected_cues.len();
            let mut i: usize = 0;
            while i < n
                invariant
                    n == pos.len(),
                    i <= n,
                    ids@.len() >= n,
                    selected_fit(c0.len(), pos, *cue_index, T::timed()),
                    cues@.len() == c0.len() + i,
                    cues.deep_view() == blank_at_each::<T>(c0, pos, *cue_index, ids@, i as nat),
                    selected_cues@.len() == n,
                    forall|j: int| 0 <= j < i ==> #[trigger] selected_cues@[j] == (pos[j] + j + 1) as usize,
                    forall|j: int| i <= j < n ==> #[trigger] selected_cues@[j] == pos[j],
                decreases n - i,
            {
                assert(selected_cues@[i as int] == pos[i as int]);
                let idx = selected_cues[i] + i;
                proof {
                    lemma_blank_at_each_len::<T>(c0, pos, *cue_index, ids@, i as nat);
                }
                let b = T::blank_at(cues, ids[i], idx, *cue_index);
                crate::seqs::insert_at(cues, idx, b);
                selected_cues[i] = selected_cues[i] + i + 1;
                i = i + 1;
            }
            assert(selected_cues@ =~= moved_past(pos));
        },
        AppMode::Edit { cursor, selected_cues } => {
            let ghost sel = selected_cues.deep_view();
            let ghost sel0 = selected_cues@;
            let ghost pos = crate::app::edit_indices(sel);
            let n = selected_cues.len();
            let mut i: usize = 0;
            assert(forall|k: int| 0 <= k < n ==> pos[k] == #[trigger] sel0[k].index);
            while i < n
                invariant
                    n == pos.len(),
                    n == sel0.len(),
                    i <= n,
                    ids@.len() >= n,
                    forall|k: int| 0 <= k < n ==> pos[k] == #[trigger] sel0[k].index,
                    selected_fit(c0.len(), pos, cursor.cue_index, T::timed()),
                    cues@.len() == c0.len() + i,
                    cues.deep_view() == blank_at_each::<T>(c0, pos, cursor.cue_index, ids@, i as nat),
                    selected_cues@.len() == n,
                    forall|k: int| 0 <= k < n ==> #[trigger] selected_cues@[k].original_content == sel0[k].original_content,
                    forall|k: int| 0 <= k < i ==> #[trigger] selected_cues@[k].index == (pos[k] + k + 1) as usize,
                    forall|k: int| i <= k < n ==> #[trigger] selected_cues@[k].index == pos[k],
                decreases n - i,
            {
                let idx = selected_cues[i].index + i;
                proof {
                    lemma_blank_at_each_len::<T>(c0, pos, cursor.cue_index, ids@, i as nat);
                }
                let b = T::blank_at(cues, ids[i], idx, cursor.cue_index);
                crate::seqs::insert_at(cues, idx, b);
                let e = &mut selected_cues[i];
                e.index = e.index + i + 1;
                i = i + 1;
            }
            assert(selected_cues.deep_view() =~= edit_moved_past(sel)) by {
                assert forall|k: int| 0 <= k < n implies selected_cues.deep_view()[k] == edit_moved_past(sel)[k] by {
                    assert(selected_cues@[k].index == (pos[k] + k + 1) as usize);
                    assert(selected_cues@[k].original_content == sel0[k].original_content);
                }
            }
        },
    }
}

/// `add_at_selected_on` for each level of cues; nothing for no cues.
pub open spec fn add_at_selected_cues(cues: CuesView, mode: ModeView, ids: Seq<u128>) -> (CuesView, ModeView) {
    match cues {
        CuesView::Word(s) => {
            let (c, m) = add_at_selected_on::<AlignedCue>(s, mode, ids);
            (CuesView::Word(c), m)
        },
        CuesView::Cue(s) => {
            let (c, m) = add_at_selected_on::<Cue>(s, mode, ids);
            (CuesView::Cue(c), m)
        },
        CuesView::Line(s) => {
            let (c, m) = add_at_selected_on::<Line>(s, mode, ids);
            (CuesView::Line(c), m)
        },
        CuesView::Empty => (cues, mode),
    }
}

impl AppStateView {
    /// The state once a blank cue is put at each selected cue.
    pub open spec fn after_add_cue_at_selected(self, ids: Seq<u128>) -> AppStateView {
        let s = self.normal_without_track();
        match s.active_cues() {
            Some(c) => {
                let (c2, m2) = add_at_selected_cues(c, s.mode, ids);
                s.with_active_cues(c2).with_mode(m2)
            },
            None => s.with_mode(ModeView::Normal),
        }
    }

    /// The number of selected cues, once a missing track is accounted for.
    pub open spec fn selected_count(self) -> nat {
        selection_positions(self.normal_without_track().mode).0.len()
    }

    /// Blank cues can be put at each selected cue without going out of bounds.
    pub open spec fn can_add_cue_at_selected(self) -> bool {
        let s = self.normal_without_track();
        s.active_cues() matches Some(c) ==> (c !is Empty ==> selected_fit(
            cues_len(c),
            selection_positions(s.mode).0,
            selection_positions(s.mode).1,
            !(c is Line),
        ))
    }
}

impl App {
    /// Puts a blank cue before each selected cue, the `i`-th with identity
    /// `ids[i]`, timed from the selected cue's start to the current cue's end.
    pub fn add_cue_at_selected_cues_with_ids(&mut self, ids: &Vec<u128>)
        requires
            old(self).wf(),
            old(self).state.deep_view().can_add_cue_at_selected(),
            ids@.len() >= old(self).state.deep_view().selected_count(),
        ensures
            final(self).wf(),
            final(self).state.deep_view() == old(self).state.deep_view().after_add_cue_at_selected(ids@),
            final(self).keeps_engine(*old(self)),
    {
        if self.state.track.is_none() {
            self.switch_to_normal_mode();
        }
        match self.state.subtitle_documents.active_index() {
            Some(i) => {
                let ghost s = self.state.deep_view();
                let doc = &mut self.state.subtitle_documents.documents[i].state.document;
                match &mut doc.cues {
                    SubtitleCues::Word(cues) => add_at_selected_in(cues, &mut self.state.app_mode, ids),
                    SubtitleCues::Cue(cues) => add_at_selected_in(cues, &mut self.state.app_mode, ids),
                    SubtitleCues::Line(cues) => add_at_selected_in(cues, &mut self.state.app_mode, ids),
                    SubtitleCues::Empty => {},
                }
                proof {
                    let (c2, m2) = add_at_selected_cues(s.active_cues()->0, s.mode, ids@);
                    crate::state::lemma_with_active_cues(s, c2);
                    assert(self.state.deep_view().documents.entries =~= s.with_active_cues(c2).documents.entries);
                }
            },
            None => self.switch_to_normal_mode(),
        }
    }

    /// Fresh random identities, one per selected cue.
    fn fresh_ids(&self) -> (r: Vec<u128>)
        ensures
            r@.len() == self.state.deep_view().selected_count(),
            forall|k: int| 0 <= k < r@.len() ==> crate::cues::is_random_uuid(#[trigger] r@[k]),
    {
        let n: usize = if self.state.track.is_none() {
            0
        } else {
            match &self.state.app_mode {
                AppMode::Normal => 0,
                AppMode::Select { selected_cues, .. } => selected_cues.len(),
                AppMode::Edit { selected_cues, .. } => selected_cues.len(),
            }
        };
        let mut r: Vec<u128> = Vec::new();
        while r.len() < n
            invariant
                r@.len() <= n,
                forall|k: int| 0 <= k < r@.len() ==> crate::cues::is_random_uuid(#[trigger] r@[k]),
            decreases n - r@.len(),
        {
            r.push(new_cue_id());
        }
        r
    }

    /// Puts a blank cue with a fresh random identity before each selected cue.
    pub fn add_cue_after_selected_cues(&mut self)
        requires
            old(self).wf(),
            old(self).state.deep_view().can_add_cue_at_selected(),
        ensures
            final(self).wf(),
            exists|ids: Seq<u128>| ids.len() == old(self).state.deep_view().selected_count()
                && (forall|k: int| 0 <= k < ids.len() ==> crate::cues::is_random_uuid(#[trigger] ids[k]))
                && final(self).state.deep_view() == old(self).state.deep_view().after_add_cue_at_selected(ids),
            final(self).keeps_engine(*old(self)),
    {
        let ids = self.fresh_ids();
        self.add_cue_at_selected_cues_with_ids(&ids);
    }

    /// Puts a blank cue with a fresh random identity before each selected cue
    /// (the same as `add_cue_after_selected_cues`).
    pub fn add_cue_before_selected_cues(&mut self)
        requires
            old(self).wf(),
            old(self).state.deep_view().can_add_cue_at_selected(),
        ensures
            final(self).wf(),
            exists|ids: Seq<u128>| ids.len() == old(self).state.deep_view().selected_count()
                && (forall|k: int| 0 <= k < ids.len() ==> crate::cues::is_random_uuid(#[trigger] ids[k]))
                && final(self).state.deep_view() == old(self).state.deep_view().after_add_cue_at_selected(ids),
            final(self).keeps_engine(*old(self)),
    {
        let ids = self.fresh_ids();
        self.add_cue_at_selected_cues_with_ids(&ids);
    }
}

// ---------------------------------------------------------------------------
// Given cues put back at their indices.

/// The selection once a cue is put in at `x`: the selected cues after `x`
/// move up by one.
pub open spec fn mode_after_insert_at(mode: ModeView, x: usize) -> ModeView {
    match mode {
        ModeView::Normal => mode,
        ModeView::Select { cue_index, selected_cues } => ModeView::Select {
            cue_index,
            selected_cues: shift_up_above(selected_cues, x),
        },
        ModeView::Edit { cursor, selected_cues } => ModeView::Edit {
            cursor,
            selected_cues: shift_edit_up_above(selected_cues, x),
        },
    }
}

/// The given cues put in one after the other, each at its index where it
/// holds cues of this level (its first cue), and the selection following each.
pub open spec fn insert_each<T: CueItem>(cues: Seq<T::V>, mode: ModeView, items: Seq<IndexedCueView>) -> (Seq<T::V>, ModeView)
    decreases items.len(),
{
    if items.len() == 0 {
        (cues, mode)
    } else {
        let (c, m) = insert_each::<T>(cues, mode, items.drop_last());
        let it = items.last();
        let c2 = match T::view_of_kind(it.subtitle_cue) {
            Some(s) => c.insert(it.index as int, s[0]),
            None => c,
        };
        (c2, mode_after_insert_at(m, it.index))
    }
}

/// Each given cue can be put in: it holds a cue where it is of this level,
/// its index is at most the length at that point, and no selected index
/// overflows.
pub open spec fn inserts_fit<T: CueItem>(cues: Seq<T::V>, mode: ModeView, items: Seq<IndexedCueView>) -> bool
    decreases items.len(),
{
    if items.len() == 0 {
        true
    } else {
        let (c, m) = insert_each::<T>(cues, mode, items.drop_last());
        let it = items.last();
        &&& inserts_fit::<T>(cues, mode, items.drop_last())
        &&& (T::view_of_kind(it.subtitle_cue) matches Some(s) ==> s.len() > 0 && it.index <= c.len())
        &&& selection_below_max(m, true)
    }
}

proof fn lemma_inserts_fit_prefix<T: CueItem>(cues: Seq<T::V>, mode: ModeView, items: Seq<IndexedCueView>, k: int)
    requires
        inserts_fit::<T>(cues, mode, items),
        0 <= k <= items.len(),
    ensures
        inserts_fit::<T>(cues, mode, items.take(k)),
    decreases items.len(),
{
    if k < items.len() {
        assert(items.drop_last().take(k) =~= items.take(k));
        lemma_inserts_fit_prefix::<T>(cues, mode, items.drop_last(), k);
    } else {
        assert(items.take(k) =~= items);
    }
}

fn insert_each_exec<T: CueItem>(cues: &mut Vec<T>, mode: &mut AppMode, items: &Vec<IndexedSubtitleCue>)
    requires
        inserts_fit::<T>(old(cues).deep_view(), old(mode).deep_view(), items.deep_view()),
    ensures
        (final(cues).deep_view(), final(mode).deep_view()) == insert_each::<T>(
            old(cues).deep_view(),
            old(mode).deep_view(),
            items.deep_view(),
        ),
{
    let ghost c0 = cues.deep_view();
    let ghost m0 = mode.deep_view();
    let ghost all = items.deep_view();
    let n = items.len();
    let mut i: usize = 0;
    assert(all.take(0) =~= Seq::<IndexedCueView>::empty());
    while i < n
        invariant
            n == all.len(),
            all == items.deep_view(),
            i <= n,
            inserts_fit::<T>(c0, m0, all),
            (cues.deep_view(), mode.deep_view()) == insert_each::<T>(c0, m0, all.take(i as int)),
        decreases n - i,
    {
        proof {
            lemma_inserts_fit_prefix::<T>(c0, m0, all, i + 1);
            assert(all.take(i + 1).drop_last() =~= all.take(i as int));
            assert(all.take(i + 1).last() == all[i as int]);
        }
        let item = &items[i];
        match T::first_of(&item.subtitle_cue) {
            Some(c) => crate::seqs::insert_at(cues, item.index, c),
            None => {},
        }
        match mode {
            AppMode::Normal => {},
            AppMode::Select { cue_index: _, selected_cues } => increment_above(selected_cues, item.index),
            AppMode::Edit { cursor: _, selected_cues } => {
                proof {
                    assert forall|k: int| 0 <= k < selected_cues@.len() implies selected_cues@[k].index < usize::MAX by {
                        assert(selected_cues.deep_view()[k].index == selected_cues@[k].index);
                    }
                }
                increment_edit_above(selected_cues, item.index)
            },
        }
        i = i + 1;
    }
    assert(all.take(n as int) =~= all);
}

/// `insert_each` for each level of cues; nothing for no cues.
pub open spec fn insert_cues_in(cues: CuesView, mode: ModeView, items: Seq<IndexedCueView>) -> (CuesView, ModeView) {
    match cues {
        CuesView::Word(s) => {
            let (c, m) = insert_each::<AlignedCue>(s, mode, items);
            (CuesView::Word(c), m)
        },
        CuesView::Cue(s) => {
            let (c, m) = insert_each::<Cue>(s, mode, items);
            (CuesView::Cue(c), m)
        },
        CuesView::Line(s) => {
            let (c, m) = insert_each::<Line>(s, mode, items);
            (CuesView::Line(c), m)
        },
        CuesView::Empty => (cues, mode),
    }
}

/// `inserts_fit` for the level of `cues`.
pub open spec fn inserts_fit_in(cues: CuesView, mode: ModeView, items: Seq<IndexedCueView>) -> bool {
    match cues {
        CuesView::Word(s) => inserts_fit::<AlignedCue>(s, mode, items),
        CuesView::Cue(s) => inserts_fit::<Cue>(s, mode, items),
        CuesView::Line(s) => inserts_fit::<Line>(s, mode, items),
        CuesView::Empty => true,
    }
}

/// The given cues in increasing order of index (those with one index in the
/// order given).
pub open spec fn sorted_items(items: Seq<IndexedCueView>) -> Seq<IndexedCueView> {
    sort_by_key(items, key_fn::<IndexedSubtitleCue>())
}

impl AppStateView {
    /// The state once the given cues are put in at their indices.
    pub open spec fn after_insert_cues(self, items: Seq<IndexedCueView>) -> AppStateView {
        let s = self.normal_without_track();
        match s.active_cues() {
            Some(c) => {
                let (c2, m2) = insert_cues_in(c, s.mode, sorted_items(items));
                s.with_active_cues(c2).with_mode(m2)
            },
            None => s.with_mode(ModeView::Normal),
        }
    }

    /// The given cues can be put in without going out of bounds.
    pub open spec fn can_insert_cues(self, items: Seq<IndexedCueView>) -> bool {
        let s = self.normal_without_track();
        s.active_cues() matches Some(c) ==> inserts_fit_in(c, s.mode, sorted_items(items))
    }
}

impl App {
    /// Puts the given cues into the active document at their indices, in
    /// increasing order of index, each moving the selected cues after it up
    /// by one; a given cue of another level than the document's is left out
    /// (the selection still moves).
    pub fn insert_cues(&mut self, indexed_cues: Vec<IndexedSubtitleCue>)
        requires
            old(self).wf(),
            old(self).state.deep_view().can_insert_cues(indexed_cues.deep_view()),
        ensures
            final(self).wf(),
            final(self).state.deep_view() == old(self).state.deep_view().after_insert_cues(
                indexed_cues.deep_view(),
            ),
            final(self).keeps_engine(*old(self)),
    {
        if self.state.track.is_none() {
            self.switch_to_normal_mode();
        }
        let sorted = sort_by_key_exec(indexed_cues);
        match self.state.subtitle_documents.active_index() {
            Some(i) => {
                let ghost s = self.state.deep_view();
                let doc = &mut self.state.subtitle_documents.documents[i].state.document;
                match &mut doc.cues {
                    SubtitleCues::Word(cues) => insert_each_exec(cues, &mut self.state.app_mode, &sorted),
                    SubtitleCues::Cue(cues) => insert_each_exec(cues, &mut self.state.app_mode, &sorted),
                    SubtitleCues::Line(cues) => insert_each_exec(cues, &mut self.state.app_mode, &sorted),
                    SubtitleCues::Empty => {},
                }
                proof {
                    let (c2, m2) = insert_cues_in(s.active_cues()->0, s.mode, sorted.deep_view());
                    crate::state::lemma_with_active_cues(s, c2);
                    assert(self.state.deep_view().documents.entries =~= s.with_active_cues(c2).documents.entries);
                }
            },
            None => self.switch_to_normal_mode(),
        }
    }
}

// ---------------------------------------------------------------------------
// What adding a blank cue next to the current one does.

/// Adding a blank cue before the current cue `i` (of `n` cues) puts the blank
/// at `i` and moves every cue from `i` on up by one; the current index
/// follows its cue to `i + 1`, and every selected (or edited) cue stays
/// selected: its index moves up exactly where it is at least `i`, so it names
/// the cue it named.
pub proof fn law_add_before_current<T: CueItem>(cues: Seq<T::V>, mode: ModeView, id: u128, move_down: bool)
    requires
        cues.len() <= usize::MAX,
        crate::app::deletion::current_index(mode) matches Some(i) && i < cues.len(),
    ensures
        ({
            let (r, m) = add_before_current_on::<T>(cues, mode, id, move_down);
            let i = crate::app::deletion::current_index(mode)->0 as int;
            &&& r.len() == cues.len() + 1
            &&& r[i] == T::view_blank(id, cues[i], cues[i])
            &&& forall|k: int| 0 <= k < i ==> r[k] == #[trigger] cues[k]
            &&& forall|k: int| i <= k < cues.len() ==> r[k + 1] == #[trigger] cues[k]
            &&& crate::app::deletion::current_index(m) == Some((i + 1) as usize)
            &&& match (mode, m) {
                (ModeView::Select { selected_cues: a, .. }, ModeView::Select { selected_cues: b, .. }) => {
                    &&& b.len() == a.len()
                    &&& forall|k: int| 0 <= k < a.len() && a[k] < cues.len() ==> r[b[k] as int] == cues[#[trigger] a[k] as int]
                },
                (ModeView::Edit { selected_cues: a, .. }, ModeView::Edit { selected_cues: b, .. }) => {
                    &&& b.len() == a.len()
                    &&& forall|k: int| 0 <= k < a.len() && a[k].index < cues.len() ==> (
                        r[b[k].index as int] == cues[(#[trigger] a[k]).index as int]
                        && b[k].original_content == a[k].original_content)
                },
                _ => false,
            }
        }),
{
    let (r, m) = add_before_current_on::<T>(cues, mode, id, move_down);
    let i = crate::app::deletion::current_index(mode)->0 as int;
    match mode {
        ModeView::Select { cue_index, selected_cues: a } => {
            let b = shift_ins(a, cue_index, false);
            assert forall|k: int| 0 <= k < a.len() && a[k] < cues.len() implies r[b[k] as int] == cues[#[trigger] a[k] as int] by {
                if a[k] >= i {
                    assert(r[a[k] + 1] == cues[a[k] as int]);
                }
            }
        },
        ModeView::Edit { cursor, selected_cues: a } => {
            let b = shift_edit_ins(a, cursor.cue_index, false);
            assert forall|k: int| 0 <= k < a.len() && a[k].index < cues.len() implies (
                r[b[k].index as int] == cues[(#[trigger] a[k]).index as int]
                && b[k].original_content == a[k].original_content) by {
                if a[k].index >= i {
                    assert(r[a[k].index + 1] == cues[a[k].index as int]);
                }
            }
        },
        ModeView::Normal => {},
    }
}

/// Adding a blank cue after the current cue `i` (of `n` cues) puts the blank
/// at `i + 1` and moves every cue after `i` up by one; the current index stays
/// on its cue. Every selected (or edited) cue after the current one, or more
/// than one before it, still names the cue it named (in the select mode where
/// the selection is moved at all; else the selection is kept as it is).
pub proof fn law_add_after_current<T: CueItem>(cues: Seq<T::V>, mode: ModeView, id: u128, shift_select: bool)
    requires
        cues.len() <= usize::MAX,
        crate::app::deletion::current_index(mode) matches Some(i) && i < cues.len(),
    ensures
        ({
            let (r, m) = add_after_current_on::<T>(cues, mode, id, shift_select);
            let i = crate::app::deletion::current_index(mode)->0 as int;
            &&& r.len() == cues.len() + 1
            &&& r[i + 1] == T::view_blank(id, cues[i], cues[i])
            &&& forall|k: int| 0 <= k <= i ==> r[k] == #[trigger] cues[k]
            &&& forall|k: int| i < k < cues.len() ==> r[k + 1] == #[trigger] cues[k]
            &&& crate::app::deletion::current_index(m) == Some(i as usize)
            &&& match (mode, m) {
                (ModeView::Select { selected_cues: a, .. }, ModeView::Select { selected_cues: b, .. }) => if shift_select {
                    &&& b.len() == a.len()
                    &&& forall|k: int| 0 <= k < a.len() && a[k] < cues.len() && (a[k] > i || a[k] + 1 < i)
                        ==> r[b[k] as int] == cues[#[trigger] a[k] as int]
                } else {
                    b == a
                },
                (ModeView::Edit { selected_cues: a, .. }, ModeView::Edit { selected_cues: b, .. }) => {
                    &&& b.len() == a.len()
                    &&& forall|k: int| 0 <= k < a.len() && a[k].index < cues.len() && (a[k].index > i || a[k].index + 1 < i)
                        ==> (r[b[k].index as int] == cues[(#[trigger] a[k]).index as int]
                        && b[k].original_content == a[k].original_content)
                },
                _ => false,
            }
        }),
{
    let (r, m) = add_after_current_on::<T>(cues, mode, id, shift_select);
    let i = crate::app::deletion::current_index(mode)->0 as int;
    match mode {
        ModeView::Select { cue_index, selected_cues: a } => {
            if shift_select {
                let b = shift_ins(a, cue_index, true);
                assert forall|k: int| 0 <= k < a.len() && a[k] < cues.len() && (a[k] > i || a[k] + 1 < i)
                    implies r[b[k] as int] == cues[#[trigger] a[k] as int] by {
                    if a[k] > i {
                        assert(r[a[k] + 1] == cues[a[k] as int]);
                    }
                }
            }
        },
        ModeView::Edit { cursor, selected_cues: a } => {
            let b = shift_edit_ins(a, cursor.cue_index, true);
            assert forall|k: int| 0 <= k < a.len() && a[k].index < cues.len() && (a[k].index > i || a[k].index + 1 < i)
                implies (r[b[k].index as int] == cues[(#[trigger] a[k]).index as int]
                && b[k].original_content == a[k].original_content) by {
                if a[k].index > i {
                    assert(r[a[k].index + 1] == cues[a[k].index as int]);
                }
            }
        },
        ModeView::Normal => {},
    }
}

/// `c2` is `c` with one cue put in at `p`: the cues before `p` kept, those
/// from `p` on one place up.
pub open spec fn inserted_at(c: CuesView, c2: CuesView, p: int) -> bool {
    &&& cues_len(c2) == cues_len(c) + 1
    &&& match (c, c2) {
        (CuesView::Word(q), CuesView::Word(q2)) => (forall|k: int| 0 <= k < p ==> q2[k] == #[trigger] q[k])
            && (forall|k: int| p <= k < q.len() ==> q2[k + 1] == #[trigger] q[k]),
        (CuesView::Cue(q), CuesView::Cue(q2)) => (forall|k: int| 0 <= k < p ==> q2[k] == #[trigger] q[k])
            && (forall|k: int| p <= k < q.len() ==> q2[k + 1] == #[trigger] q[k]),
        (CuesView::Line(q), CuesView::Line(q2)) => (forall|k: int| 0 <= k < p ==> q2[k] == #[trigger] q[k])
            && (forall|k: int| p <= k < q.len() ==> q2[k + 1] == #[trigger] q[k]),
        _ => false,
    }
}

/// With a track and a current cue `i` in a document with cues, adding a blank
/// cue before the current one puts it in at `i` and the current index moves
/// to `i + 1`, the cue it named; adding one after puts it in at `i + 1` and the
/// current index stays at `i`.
pub proof fn law_add_next_to_current(s: AppStateView, id: u128)
    requires
        s.documents.wf(),
        s.track is Some,
        s.active_cues() matches Some(c) && !(c is Empty) && cues_len(c) <= usize::MAX,
        crate::app::deletion::current_index(s.mode) matches Some(i) && i < cues_len(s.active_cues()->0),
    ensures
        ({
            let c = s.active_cues()->0;
            let i = crate::app::deletion::current_index(s.mode)->0;
            let b = s.after_add_cue_before_current(id);
            let a = s.after_add_cue_after_current(id);
            &&& b.active_cues() matches Some(c2) && inserted_at(c, c2, i as int)
            &&& crate::app::deletion::current_index(b.mode) == Some((i + 1) as usize)
            &&& a.active_cues() matches Some(c2) && inserted_at(c, c2, i + 1)
            &&& crate::app::deletion::current_index(a.mode) == Some(i)
        }),
{
    let c = s.active_cues()->0;
    let (cb, mb) = add_before_current_cues(c, s.mode, id);
    let (ca, ma) = add_after_current_cues(c, s.mode, id);
    crate::state::lemma_with_active_cues(s, cb);
    crate::state::lemma_with_active_cues(s, ca);
    match c {
        CuesView::Word(q) => {
            law_add_before_current::<AlignedCue>(q, s.mode, id, true);
            law_add_after_current::<AlignedCue>(q, s.mode, id, true);
        },
        CuesView::Cue(q) => {
            law_add_before_current::<Cue>(q, s.mode, id, false);
            law_add_after_current::<Cue>(q, s.mode, id, false);
        },
        CuesView::Line(q) => {
            law_add_before_current::<Line>(q, s.mode, id, false);
            law_add_after_current::<Line>(q, s.mode, id, false);
        },
        CuesView::Empty => {},
    }
}

/// How many of the first `k` positions of `pos` are at most `x`.
pub open spec fn count_at_most(pos: Seq<usize>, k: nat, x: int) -> int
    decreases k,
{
    if k == 0 {
        0
    } else {
        count_at_most(pos, (k - 1) as nat, x) + if pos[k - 1] <= x { 1int } else { 0int }
    }
}

proof fn lemma_count_at_most_bounds(pos: Seq<usize>, k: nat, x: int)
    requires
        k <= pos.len(),
    ensures
        0 <= count_at_most(pos, k, x) <= k,
        (forall|j: int| 0 <= j < k ==> pos[j] <= x) ==> count_at_most(pos, k, x) == k,
    decreases k,
{
    if k > 0 {
        lemma_count_at_most_bounds(pos, (k - 1) as nat, x);
    }
}

proof fn lemma_blank_at_each_keeps<T: CueItem>(cues: Seq<T::V>, pos: Seq<usize>, end_index: usize, ids: Seq<u128>, k: nat)
    requires
        k <= pos.len(),
        forall|a: int, b: int| 0 <= a < b < pos.len() ==> pos[a] < pos[b],
        forall|j: int| 0 <= j < pos.len() ==> pos[j] < cues.len(),
    ensures
        blank_at_each::<T>(cues, pos, end_index, ids, k).len() == cues.len() + k,
        forall|x: int| 0 <= x < cues.len() ==> blank_at_each::<T>(cues, pos, end_index, ids, k)[x + count_at_most(pos, k, x)]
            == #[trigger] cues[x],
    decreases k,
{
    lemma_blank_at_each_len::<T>(cues, pos, end_index, ids, k);
    if k > 0 {
        let k1 = (k - 1) as nat;
        lemma_blank_at_each_keeps::<T>(cues, pos, end_index, ids, k1);
        let c = blank_at_each::<T>(cues, pos, end_index, ids, k1);
        let idx = pos[k1 as int] + k1;
        assert forall|x: int| 0 <= x < cues.len() implies blank_at_each::<T>(cues, pos, end_index, ids, k)[x + count_at_most(pos, k, x)]
            == #[trigger] cues[x] by {
            lemma_count_at_most_bounds(pos, k1, x);
            if pos[k1 as int] <= x {
                assert forall|j: int| 0 <= j < k1 implies pos[j] <= x by {
                    assert(pos[j] < pos[k1 as int]);
                }
                lemma_count_at_most_bounds(pos, k1, x);
                assert(c[x + count_at_most(pos, k1, x)] == cues[x]);
            } else {
                assert(x + count_at_most(pos, k1, x) < idx);
                assert(c[x + count_at_most(pos, k1, x)] == cues[x]);
            }
        }
    }
}

/// Adding a blank cue before each selected cue (the selection increasing,
/// each a cue of the document) keeps every cue in order, each moved up by the
/// number of selected cues at or before it, and the selection follows its
/// cues: each selected index names, after, the cue it named before.
pub proof fn law_add_at_selected<T: CueItem>(cues: Seq<T::V>, mode: ModeView, ids: Seq<u128>)
    requires
        mode is Select,
        forall|a: int, b: int| 0 <= a < b < selected_indices_of(mode).len()
            ==> selected_indices_of(mode)[a] < selected_indices_of(mode)[b],
        forall|j: int| 0 <= j < selected_indices_of(mode).len() ==> selected_indices_of(mode)[j] < cues.len(),
        cues.len() + selected_indices_of(mode).len() <= usize::MAX,
    ensures
        ({
            let (r, m) = add_at_selected_on::<T>(cues, mode, ids);
            let a = selected_indices_of(mode);
            &&& r.len() == cues.len() + a.len()
            &&& forall|x: int| 0 <= x < cues.len() ==> r[x + count_at_most(a, a.len(), x)] == #[trigger] cues[x]
            &&& m matches ModeView::Select { selected_cues: b, .. } && b.len() == a.len()
                && forall|i: int| 0 <= i < a.len() ==> r[b[i] as int] == cues[#[trigger] a[i] as int]
        }),
{
    let a = selected_indices_of(mode);
    let e = mode->Select_cue_index;
    lemma_blank_at_each_keeps::<T>(cues, a, e, ids, a.len());
    let (r, m) = add_at_selected_on::<T>(cues, mode, ids);
    let b = moved_past(a);
    assert forall|i: int| 0 <= i < a.len() implies r[b[i] as int] == cues[#[trigger] a[i] as int] by {
        let x = a[i] as int;
        assert(count_at_most(a, a.len(), x) == i + 1) by {
            lemma_count_split(a, a.len(), i);
        }
        assert(r[x + count_at_most(a, a.len(), x)] == cues[x]);
    }
}

/// In an increasing sequence, exactly the first `i + 1` positions are at most
/// the one at `i`.
proof fn lemma_count_split(pos: Seq<usize>, k: nat, i: int)
    requires
        0 <= i < k <= pos.len(),
        forall|a: int, b: int| 0 <= a < b < pos.len() ==> pos[a] < pos[b],
    ensures
        count_at_most(pos, k, pos[i] as int) == i + 1,
    decreases k,
{
    if k - 1 > i {
        lemma_count_split(pos, (k - 1) as nat, i);
        assert(pos[i] < pos[k - 1]);
    } else {
        lemma_count_at_most_bounds(pos, (k - 1) as nat, pos[i] as int);
        assert forall|j: int| 0 <= j < k - 1 implies pos[j] <= pos[i] by {
            assert(pos[j] < pos[i]);
        }
        lemma_count_at_most_bounds(pos, (k - 1) as nat, pos[i] as int);
    }
}

/// The selected indices of the select mode.
pub open spec fn selected_indices_of(mode: ModeView) -> Seq<usize> {
    match mode {
        ModeView::Select { selected_cues, .. } => selected_cues,
        _ => Seq::empty(),
    }
}

} // verus!

//! Moving the current cue by a given index, and shifting starts without
//! fixing ends or following the selection.

use vstd::prelude::*;

use crate::app::deletion::cues_len;
use crate::app::navigation::sat_sub;
use crate::app::timing::{
    backward_stop, result_view, start_backward, start_forward_plain, with_start, CurrentTimeEdit,
};
use crate::app::App;
use crate::cues::{AlignedCue, Cue, CuesView, SubtitleCues, TimedCue};
use crate::mode::{AppMode, ModeView};
use crate::sort::{key_fn, sort_by_key};
use crate::state::AppStateView;

verus! {

/// The selection of the mode (none outside the select mode).
pub open spec fn kept_selection(mode: ModeView) -> Seq<usize> {
    match mode {
        ModeView::Select { selected_cues, .. } => selected_cues,
        _ => Seq::empty(),
    }
}

impl AppStateView {
    /// The state once the cue before `cue_index` is selected (normal mode
    /// first without a track or document).
    pub open spec fn after_select_previous_line(self, cue_index: usize) -> AppStateView {
        let s = if self.track is None || self.active_cues() is None { self.with_mode(ModeView::Normal) } else { self };
        s.with_mode(ModeView::Select { cue_index: sat_sub(cue_index, 1), selected_cues: kept_selection(s.mode) })
    }

    /// The state once the cue after `cue_index` is selected, where there is
    /// one (normal mode first without a track; normal mode without a
    /// document).
    pub open spec fn after_select_next_line(self, cue_index: usize) -> AppStateView {
        let s = if self.track is None { self.with_mode(ModeView::Normal) } else { self };
        match s.active_cues() {
            None => s.with_mode(ModeView::Normal),
            Some(c) => if cue_index + 1 < cues_len(c) {
                s.with_mode(ModeView::Select { cue_index: (cue_index + 1) as usize, selected_cues: kept_selection(s.mode) })
            } else {
                s
            },
        }
    }

    /// The document has cues, where there is one.
    pub open spec fn can_select_next_line(self) -> bool {
        self.active_cues() matches Some(c) ==> cues_len(c) > 0
    }

    /// The state once the current cue's start moves by `d` (later where
    /// `forwards`, within the track; earlier otherwise, not before zero),
    /// the cue moving past the cues it passes; its end and the mode stay.
    pub open spec fn after_adjust_start(self, forwards: bool, d: i64) -> AppStateView {
        let e = if forwards { CurrentTimeEdit::LaterStart(d) } else { CurrentTimeEdit::EarlierStart(d) };
        if self.time_edit_result(e) is Err {
            self
        } else {
            let i = self.current_index() as int;
            let dur = self.track_duration();
            match self.active_cues()->0 {
                CuesView::Word(s) => self.with_active_cues(CuesView::Word(adjusted::<AlignedCue>(s, i, forwards, d, dur))),
                CuesView::Cue(s) => self.with_active_cues(CuesView::Cue(adjusted::<Cue>(s, i, forwards, d, dur))),
                _ => self,
            }
        }
    }
}

/// The cue at `i` starting `d` later (within `duration`) or earlier (not
/// before zero), moved past the cues it passes.
pub open spec fn adjusted<T: TimedCue>(s: Seq<T::V>, i: int, forwards: bool, d: i64, duration: i64) -> Seq<T::V> {
    if forwards {
        let t = T::view_start(s[i]) + d;
        if t <= duration { start_forward_plain::<T>(s, i, t as i64) } else { s }
    } else {
        let t = T::view_start(s[i]) - d;
        if t >= 0 { start_backward::<T>(s, i, t as i64).0 } else { s }
    }
}

impl App {
    /// Selects the cue before `cue_index` (see `after_select_previous_line`).
    pub fn select_previous_line(&mut self, cue_index: usize)
        requires
            old(self).wf(),
        ensures
            final(self).wf(),
            final(self).state.deep_view() == old(self).state.deep_view().after_select_previous_line(cue_index),
            final(self).keeps_engine(*old(self)),
    {
        if self.state.track.is_none() || self.state.subtitle_documents.active_index().is_none() {
            self.switch_to_normal_mode();
        }
        let selected = match &self.state.app_mode {
            AppMode::Select { selected_cues, .. } => {
                let v = selected_cues.clone();
                assert(v@ =~= selected_cues@);
                v
            },
            _ => {
                let v: Vec<usize> = Vec::new();
                assert(v@ =~= Seq::<usize>::empty());
                v
            },
        };
        self.state.app_mode = AppMode::Select { cue_index: cue_index.saturating_sub(1), selected_cues: selected };
    }

    /// Selects the cue after `cue_index` (see `after_select_next_line`).
    pub fn select_next_line(&mut self, cue_index: usize)
        requires
            old(self).wf(),
            old(self).state.deep_view().can_select_next_line(),
        ensures
            final(self).wf(),
            final(self).state.deep_view() == old(self).state.deep_view().after_select_next_line(cue_index),
            final(self).keeps_engine(*old(self)),
    {
        if self.state.track.is_none() {
            self.switch_to_normal_mode();
        }
        let i = match self.state.subtitle_documents.active_index() {
            Some(i) => i,
            None => {
                self.switch_to_normal_mode();
                return;
            },
        };
        let n = self.state.subtitle_documents.documents[i].state.document.cues.len();
        if cue_index < n - 1 {
            let selected = match &self.state.app_mode {
                AppMode::Select { selected_cues, .. } => {
                    let v = selected_cues.clone();
                    assert(v@ =~= selected_cues@);
                    v
                },
                _ => {
                    let v: Vec<usize> = Vec::new();
                    assert(v@ =~= Seq::<usize>::empty());
                    v
                },
            };
            self.state.app_mode = AppMode::Select { cue_index: cue_index + 1, selected_cues: selected };
        }
    }

    fn adjust_start(&mut self, forwards: bool, d: i64) -> (r: Result<(), String>)
        requires
            old(self).wf(),
            old(self).state.deep_view().can_edit_current_times(
                if forwards { CurrentTimeEdit::LaterStart(d) } else { CurrentTimeEdit::EarlierStart(d) },
            ),
        ensures
            final(self).wf(),
            result_view(r) == old(self).state.deep_view().time_edit_result(
                if forwards { CurrentTimeEdit::LaterStart(d) } else { CurrentTimeEdit::EarlierStart(d) },
            ),
            final(self).state.deep_view() == old(self).state.deep_view().after_adjust_start(forwards, d),
            final(self).keeps_engine(*old(self)),
    {
        let idx = match self.state.subtitle_documents.active_index() {
            Some(i) => i,
            None => return Err(String::from_str("No subtitle document found")),
        };
        if forwards && self.state.track.is_none() {
            return Err(String::from_str("No subtitle document found"));
        }
        let ci = match &self.state.app_mode {
            AppMode::Normal => return Err(String::from_str("Cannot be in normal mode")),
            AppMode::Select { cue_index, .. } => *cue_index,
            AppMode::Edit { cursor, .. } => cursor.cue_index,
        };
        let duration = match &self.state.track {
            Some(t) => t.duration,
            None => 0,
        };
        let ghost s = self.state.deep_view();
        let doc = &mut self.state.subtitle_documents.documents[idx].state.document;
        match &mut doc.cues {
            SubtitleCues::Word(cues) => adjust_in(cues, ci, forwards, d, duration),
            SubtitleCues::Cue(cues) => adjust_in(cues, ci, forwards, d, duration),
            _ => {},
        }
        proof {
            match s.active_cues()->0 {
                CuesView::Word(q) => {
                    let c2 = CuesView::Word(adjusted::<AlignedCue>(q, ci as int, forwards, d, duration));
                    crate::state::lemma_with_active_cues(s, c2);
                    assert(self.state.deep_view().documents.entries =~= s.with_active_cues(c2).documents.entries);
                },
                CuesView::Cue(q) => {
                    let c2 = CuesView::Cue(adjusted::<Cue>(q, ci as int, forwards, d, duration));
                    crate::state::lemma_with_active_cues(s, c2);
                    assert(self.state.deep_view().documents.entries =~= s.with_active_cues(c2).documents.entries);
                },
                _ => {
                    assert(self.state.deep_view().documents.entries =~= s.documents.entries);
                },
            }
        }
        Ok(())
    }

    /// Starts the current cue later by `forwards_cue_increment` (within the
    /// track), moving it forward past the cues that then start before it;
    /// its end and the mode stay.
    pub fn adjust_selected_cue_start_forwards(&mut self, forwards_cue_increment: i64) -> (r: Result<(), String>)
        requires
            old(self).wf(),
            old(self).state.deep_view().can_edit_current_times(CurrentTimeEdit::LaterStart(forwards_cue_increment)),
        ensures
            final(self).wf(),
            result_view(r) == old(self).state.deep_view().time_edit_result(CurrentTimeEdit::LaterStart(forwards_cue_increment)),
            final(self).state.deep_view() == old(self).state.deep_view().after_adjust_start(true, forwards_cue_increment),
            final(self).keeps_engine(*old(self)),
    {
        self.adjust_start(true, forwards_cue_increment)
    }

    /// Starts the current cue earlier by `backwards_cue_increment` (not
    /// before zero), moving it back past the cues that then start after it;
    /// the mode stays.
    pub fn adjust_selected_cue_start_backwards(&mut self, backwards_cue_increment: i64) -> (r: Result<(), String>)
        requires
            old(self).wf(),
            old(self).state.deep_view().can_edit_current_times(CurrentTimeEdit::EarlierStart(backwards_cue_increment)),
        ensures
            final(self).wf(),
            result_view(r) == old(self).state.deep_view().time_edit_result(CurrentTimeEdit::EarlierStart(backwards_cue_increment)),
            final(self).state.deep_view() == old(self).state.deep_view().after_adjust_start(false, backwards_cue_increment),
            final(self).keeps_engine(*old(self)),
    {
        self.adjust_start(false, backwards_cue_increment)
    }
}

fn adjust_in<T: TimedCue>(cues: &mut Vec<T>, i: usize, forwards: bool, d: i64, duration: i64)
    requires
        i < old(cues)@.len(),
        forwards ==> i64::MIN <= T::view_start(old(cues).deep_view()[i as int]) + d <= i64::MAX,
        !forwards ==> i64::MIN <= T::view_start(old(cues).deep_view()[i as int]) - d <= i64::MAX,
    ensures
        final(cues).deep_view() == adjusted::<T>(old(cues).deep_view(), i as int, forwards, d, duration),
{
    let st = cues[i].start();
    if forwards {
        let t = st + d;
        if t <= duration {
            let _ = crate::app::timing::move_start_forward_plain(cues, i, t);
        }
    } else {
        let t = st - d;
        if t >= 0 {
            let _ = crate::app::timing::move_start_backward(cues, i, t);
        }
    }
}

// ---------------------------------------------------------------------------
// All starts.

/// Every cue starting `d` later where that stays within `duration` (ends as
/// they were), then the cues sorted by start.
pub open spec fn all_starts_later<T: TimedCue>(s: Seq<T::V>, d: i64, duration: i64) -> Seq<T::V> {
    sort_by_key(
        Seq::new(s.len(), |i: int| if T::view_start(s[i]) + d <= duration { with_start::<T>(s[i], (T::view_start(s[i]) + d) as i64) } else { s[i] }),
        key_fn::<T>(),
    )
}

impl AppStateView {
    /// The state once every cue's start moves later (see `all_starts_later`;
    /// no change without a document and a track, or for cues without
    /// times).
    pub open spec fn after_adjust_all_starts_forwards(self, d: i64) -> AppStateView {
        if self.active_cues() is None || self.track is None {
            self
        } else {
            let dur = self.track_duration();
            match self.active_cues()->0 {
                CuesView::Word(s) => self.with_active_cues(CuesView::Word(all_starts_later::<AlignedCue>(s, d, dur))),
                CuesView::Cue(s) => self.with_active_cues(CuesView::Cue(all_starts_later::<Cue>(s, d, dur))),
                _ => self,
            }
        }
    }

    /// Every start moved by `d` stays within `i64`.
    pub open spec fn can_adjust_all_starts_forwards(self, d: i64) -> bool {
        self.can_edit_all_times(crate::app::timing::AllTimesEdit::LaterStarts(d))
    }
}

fn all_starts_later_exec<T: TimedCue>(cues: &mut Vec<T>, d: i64, duration: i64)
    requires
        forall|i: int| 0 <= i < old(cues)@.len() ==> i64::MIN <= T::view_start(#[trigger] old(cues).deep_view()[i]) + d <= i64::MAX,
    ensures
        final(cues).deep_view() == all_starts_later::<T>(old(cues).deep_view(), d, duration),
{
    let ghost s = cues.deep_view();
    let ghost mapped = Seq::new(s.len(), |i: int| if T::view_start(s[i]) + d <= duration { with_start::<T>(s[i], (T::view_start(s[i]) + d) as i64) } else { s[i] });
    let n = cues.len();
    let mut i: usize = 0;
    while i < n
        invariant
            n == s.len(),
            cues@.len() == n,
            i <= n,
            forall|k: int| 0 <= k < n ==> i64::MIN <= T::view_start(#[trigger] s[k]) + d <= i64::MAX,
            mapped.len() == n,
            forall|k: int| 0 <= k < n ==> #[trigger] mapped[k] == (if T::view_start(s[k]) + d <= duration { with_start::<T>(s[k], (T::view_start(s[k]) + d) as i64) } else { s[k] }),
            forall|k: int| 0 <= k < i ==> #[trigger] cues.deep_view()[k] == mapped[k],
            forall|k: int| i <= k < n ==> #[trigger] cues.deep_view()[k] == s[k],
        decreases n - i,
    {
        assert(cues.deep_view()[i as int] == s[i as int]);
        let st = cues[i].start();
        let en = cues[i].end();
        let t = st + d;
        if t <= duration {
            crate::app::timing::set_times_at(cues, i, t, en);
        } else {
            proof { T::lemma_with_times(s[i as int], st, en); }
        }
        assert(cues.deep_view()[i as int] == mapped[i as int]);
        i = i + 1;
    }
    assert(cues.deep_view() =~= mapped);
    let mut v: Vec<T> = Vec::new();
    std::mem::swap(&mut v, cues);
    let sorted = crate::sort::sort_by_key_exec(v);
    *cues = sorted;
}

impl App {
    /// Starts every cue later by `forwards_cue_increment` where it stays
    /// within the track (ends as they were), then sorts the cues by start.
    pub fn adjust_all_cues_start_forwards(&mut self, forwards_cue_increment: i64)
        requires
            old(self).wf(),
            old(self).state.deep_view().can_adjust_all_starts_forwards(forwards_cue_increment),
        ensures
            final(self).wf(),
            final(self).state.deep_view() == old(self).state.deep_view().after_adjust_all_starts_forwards(forwards_cue_increment),
            final(self).keeps_engine(*old(self)),
    {
        let idx = match self.state.subtitle_documents.active_index() {
            Some(i) => i,
            None => return,
        };
        let duration = match &self.state.track {
            Some(t) => t.duration,
            None => return,
        };
        let ghost s = self.state.deep_view();
        let doc = &mut self.state.subtitle_documents.documents[idx].state.document;
        match &mut doc.cues {
            SubtitleCues::Word(cues) => all_starts_later_exec(cues, forwards_cue_increment, duration),
            SubtitleCues::Cue(cues) => all_starts_later_exec(cues, forwards_cue_increment, duration),
            _ => {},
        }
        proof {
            match s.active_cues()->0 {
                CuesView::Word(q) => {
                    let c2 = CuesView::Word(all_starts_later::<AlignedCue>(q, forwards_cue_increment, duration));
                    crate::state::lemma_with_active_cues(s, c2);
                    assert(self.state.deep_view().documents.entries =~= s.with_active_cues(c2).documents.entries);
                },
                CuesView::Cue(q) => {
                    let c2 = CuesView::Cue(all_starts_later::<Cue>(q, forwards_cue_increment, duration));
                    crate::state::lemma_with_active_cues(s, c2);
                    assert(self.state.deep_view().documents.entries =~= s.with_active_cues(c2).documents.entries);
                },
                _ => {
                    assert(self.state.deep_view().documents.entries =~= s.documents.entries);
                },
            }
        }
    }

    /// Starts every cue earlier by `backwards_cue_increment` where it stays
    /// at or after zero, then sorts the cues by start (as
    /// `decrease_all_cue_start_times`).
    pub fn adjust_all_cues_start_backwards(&mut self, backwards_cue_increment: i64)
        requires
            old(self).wf(),
            old(self).state.deep_view().can_edit_all_times(crate::app::timing::AllTimesEdit::EarlierStarts(backwards_cue_increment)),
        ensures
            final(self).wf(),
            final(self).state.deep_view() == old(self).state.deep_view().after_all_times_edit(
                crate::app::timing::AllTimesEdit::EarlierStarts(backwards_cue_increment),
            ),
            final(self).keeps_engine(*old(self)),
    {
        self.decrease_all_cue_start_times(backwards_cue_increment)
    }
}

} // verus!

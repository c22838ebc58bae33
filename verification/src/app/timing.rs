//! Timing: moving the start or end of the current cue, of all cues, or
//! setting the times of given cues, keeping cues in order of start where the
//! editor does.

use vstd::prelude::*;

use crate::app::App;
use crate::cues::{AlignedCue, Cue, CuesView, SubtitleCues, TimedCue};
use crate::history::CueTimeChange;
use crate::mode::{AppMode, Cursor, EditCueView, ModeView};
use crate::app::history::inverse_changes;
use crate::sort::{key_fn, sort_by_key};
use crate::state::AppStateView;

verus! {

// ---------------------------------------------------------------------------
// Cues of one level.

/// The cue `v` starting at `t`, its end kept.
pub open spec fn with_start<T: TimedCue>(v: T::V, t: i64) -> T::V {
    T::view_with_times(v, t, T::view_end(v))
}

/// The cue `v` ending at `t`, its start kept.
pub open spec fn with_end<T: TimedCue>(v: T::V, t: i64) -> T::V {
    T::view_with_times(v, T::view_start(v), t)
}

/// The last place, from `k` on, that a cue starting at `t` reaches when it
/// moves forward past each following cue that starts before `t`.
pub open spec fn forward_stop<T: TimedCue>(s: Seq<T::V>, k: int, t: i64) -> int
    decreases s.len() - k,
{
    if 0 <= k && k + 1 < s.len() && T::view_start(s[k + 1]) < t {
        forward_stop::<T>(s, k + 1, t)
    } else {
        k
    }
}

/// The first place, from `k` back, that a cue starting at `t` reaches when it
/// moves back past each preceding cue that starts after `t`.
pub open spec fn backward_stop<T: TimedCue>(s: Seq<T::V>, k: int, t: i64) -> int
    decreases k,
{
    if 0 < k && k <= s.len() && t < T::view_start(s[k - 1]) {
        backward_stop::<T>(s, k - 1, t)
    } else {
        k
    }
}

/// The start of the first cue from `k` on that starts after `t`.
pub open spec fn first_start_after<T: TimedCue>(s: Seq<T::V>, k: int, t: i64) -> Option<i64>
    decreases s.len() - k,
{
    if 0 <= k < s.len() {
        if T::view_start(s[k]) > t {
            Some(T::view_start(s[k]))
        } else {
            first_start_after::<T>(s, k + 1, t)
        }
    } else {
        None
    }
}

/// A cue at `j` that ends before it starts is made to end where the first
/// later cue that starts after it starts (where there is one).
pub open spec fn fix_end<T: TimedCue>(r: Seq<T::V>, j: int) -> Seq<T::V> {
    let x = r[j];
    if T::view_start(x) > T::view_end(x) {
        match first_start_after::<T>(r, j + 1, T::view_start(x)) {
            Some(e) => r.update(j, with_end::<T>(x, e)),
            None => r,
        }
    } else {
        r
    }
}

/// The cue at `i` made to start at `t` and moved forward past the following
/// cues that start before it, its end fixed; and the place it ends at.
pub open spec fn start_forward<T: TimedCue>(s: Seq<T::V>, i: int, t: i64) -> (Seq<T::V>, int) {
    let j = forward_stop::<T>(s, i, t);
    (fix_end::<T>(s.remove(i).insert(j, with_start::<T>(s[i], t)), j), j)
}

/// The cue at `i` made to start at `t` and moved back past the preceding
/// cues that start after it; and the place it ends at.
pub open spec fn start_backward<T: TimedCue>(s: Seq<T::V>, i: int, t: i64) -> (Seq<T::V>, int) {
    let j = backward_stop::<T>(s, i, t);
    (s.remove(i).insert(j, with_start::<T>(s[i], t)), j)
}

proof fn lemma_forward_stop<T: TimedCue>(s: Seq<T::V>, k: int, t: i64)
    requires
        0 <= k < s.len(),
    ensures
        k <= forward_stop::<T>(s, k, t) < s.len(),
        forall|m: int| k < m <= forward_stop::<T>(s, k, t) ==> T::view_start(#[trigger] s[m]) < t,
        forward_stop::<T>(s, k, t) + 1 < s.len() ==> T::view_start(s[forward_stop::<T>(s, k, t) + 1]) >= t,
    decreases s.len() - k,
{
    if k + 1 < s.len() && T::view_start(s[k + 1]) < t {
        lemma_forward_stop::<T>(s, k + 1, t);
    }
}

proof fn lemma_backward_stop<T: TimedCue>(s: Seq<T::V>, k: int, t: i64)
    requires
        0 <= k < s.len(),
    ensures
        0 <= backward_stop::<T>(s, k, t) <= k,
        forall|m: int| backward_stop::<T>(s, k, t) <= m < k ==> T::view_start(#[trigger] s[m]) > t,
        backward_stop::<T>(s, k, t) > 0 ==> T::view_start(s[backward_stop::<T>(s, k, t) - 1]) <= t,
    decreases k,
{
    if 0 < k && t < T::view_start(s[k - 1]) {
        lemma_backward_stop::<T>(s, k - 1, t);
    }
}

/// The start of the first cue from `k` on that starts after `t`.
fn find_start_after<T: TimedCue>(cues: &Vec<T>, k: usize, t: i64) -> (r: Option<i64>)
    ensures
        r == first_start_after::<T>(cues.deep_view(), k as int, t),
{
    let mut m = k;
    while m < cues.len()
        invariant
            k <= m,
            first_start_after::<T>(cues.deep_view(), k as int, t) == first_start_after::<T>(cues.deep_view(), m as int, t),
        decreases cues@.len() - m,
    {
        let st = cues[m].start();
        if st > t {
            return Some(st);
        }
        m = m + 1;
    }
    None
}

/// Gives the cue at `i` the times `start` and `end`.
pub(crate) fn set_times_at<T: TimedCue>(cues: &mut Vec<T>, i: usize, start: i64, end: i64)
    requires
        i < old(cues)@.len(),
    ensures
        final(cues).deep_view() == old(cues).deep_view().update(
            i as int,
            T::view_with_times(old(cues).deep_view()[i as int], start, end),
        ),
        final(cues)@.len() == old(cues)@.len(),
{
    let c = &mut cues[i];
    c.set_times(start, end);
    assert(cues.deep_view() =~= old(cues).deep_view().update(
        i as int,
        T::view_with_times(old(cues).deep_view()[i as int], start, end),
    ));
}

/// Ends the cue at `j` where the first later cue that starts after it
/// starts, where it ends before it starts.
fn fix_end_exec<T: TimedCue>(cues: &mut Vec<T>, j: usize)
    requires
        j < old(cues)@.len(),
    ensures
        final(cues).deep_view() == fix_end::<T>(old(cues).deep_view(), j as int),
        final(cues)@.len() == old(cues)@.len(),
{
    let n = cues.len();
    let st = cues[j].start();
    let en = cues[j].end();
    if st > en {
        match find_start_after(cues, j + 1, st) {
            Some(e) => set_times_at(cues, j, st, e),
            None => {},
        }
    }
}

/// The cue at `i` made to start at `t` and moved forward past the following
/// cues that start before it (its end as it was).
pub open spec fn start_forward_plain<T: TimedCue>(s: Seq<T::V>, i: int, t: i64) -> Seq<T::V> {
    s.remove(i).insert(forward_stop::<T>(s, i, t), with_start::<T>(s[i], t))
}

/// Makes the cue at `i` start at `t` and moves it forward past the following
/// cues that start before it, then fixes its end; returns where it is.
fn move_start_forward<T: TimedCue>(cues: &mut Vec<T>, i: usize, t: i64) -> (j: usize)
    requires
        i < old(cues)@.len(),
    ensures
        (final(cues).deep_view(), j as int) == start_forward::<T>(old(cues).deep_view(), i as int, t),
{
    let ci = move_start_forward_plain(cues, i, t);
    fix_end_exec(cues, ci);
    ci
}

/// Makes the cue at `i` start at `t` and moves it forward past the following
/// cues that start before it; returns where it is.
pub(crate) fn move_start_forward_plain<T: TimedCue>(cues: &mut Vec<T>, i: usize, t: i64) -> (j: usize)
    requires
        i < old(cues)@.len(),
    ensures
        j == forward_stop::<T>(old(cues).deep_view(), i as int, t),
        final(cues).deep_view() == start_forward_plain::<T>(old(cues).deep_view(), i as int, t),
        j < old(cues)@.len(),
        final(cues)@.len() == old(cues)@.len(),
{
    let ghost s = cues.deep_view();
    let ghost x = with_start::<T>(s[i as int], t);
    let ghost j0 = forward_stop::<T>(s, i as int, t);
    proof {
        lemma_forward_stop::<T>(s, i as int, t);
        T::lemma_with_times(s[i as int], t, T::view_end(s[i as int]));
    }
    let en = cues[i].end();
    set_times_at(cues, i, t, en);
    assert(cues.deep_view() =~= s.remove(i as int).insert(i as int, x));
    let n = cues.len();
    let mut ci = i;
    while ci + 1 < n && cues[ci].start() > cues[ci + 1].start()
        invariant
            n == s.len(),
            i <= ci < s.len(),
            cues@.len() == s.len(),
            cues.deep_view() == s.remove(i as int).insert(ci as int, x),
            T::view_start(x) == t,
            forward_stop::<T>(s, ci as int, t) == j0,
        decreases s.len() - ci,
    {
        assert(cues.deep_view()[ci as int] == x);
        assert(cues.deep_view()[ci as int + 1] == s[ci as int + 1]);
        crate::seqs::swap_with_next(cues, ci);
        assert(cues.deep_view() =~= s.remove(i as int).insert(ci as int + 1, x));
        ci = ci + 1;
    }
    proof {
        if ci + 1 < s.len() {
            assert(cues.deep_view()[ci as int] == x);
            assert(cues.deep_view()[ci as int + 1] == s[ci as int + 1]);
        }
    }
    assert(ci == j0);
    ci
}

/// Makes the cue at `i` start at `t` and moves it back past the preceding
/// cues that start after it; returns where it is.
pub(crate) fn move_start_backward<T: TimedCue>(cues: &mut Vec<T>, i: usize, t: i64) -> (j: usize)
    requires
        i < old(cues)@.len(),
    ensures
        (final(cues).deep_view(), j as int) == start_backward::<T>(old(cues).deep_view(), i as int, t),
{
    let ghost s = cues.deep_view();
    let ghost x = with_start::<T>(s[i as int], t);
    let ghost j0 = backward_stop::<T>(s, i as int, t);
    proof {
        lemma_backward_stop::<T>(s, i as int, t);
        T::lemma_with_times(s[i as int], t, T::view_end(s[i as int]));
    }
    let en = cues[i].end();
    set_times_at(cues, i, t, en);
    assert(cues.deep_view() =~= s.remove(i as int).insert(i as int, x));
    let mut ci = i;
    while ci > 0 && cues[ci].start() < cues[ci - 1].start()
        invariant
            0 <= ci <= i < s.len(),
            cues@.len() == s.len(),
            cues.deep_view() == s.remove(i as int).insert(ci as int, x),
            T::view_start(x) == t,
            backward_stop::<T>(s, ci as int, t) == j0,
        decreases ci,
    {
        assert(cues.deep_view()[ci as int] == x);
        assert(cues.deep_view()[ci as int - 1] == s[ci as int - 1]);
        crate::seqs::swap_with_next(cues, ci - 1);
        assert(cues.deep_view() =~= s.remove(i as int).insert(ci as int - 1, x));
        ci = ci - 1;
    }
    proof {
        if ci > 0 {
            assert(cues.deep_view()[ci as int] == x);
            assert(cues.deep_view()[ci as int - 1] == s[ci as int - 1]);
        }
    }
    assert(ci == j0);
    ci
}

// ---------------------------------------------------------------------------
// The current cue.

/// A change of the times of the current cue, by a number of microseconds.
#[derive(Clone, Copy, PartialEq, Eq, Structural)]
pub enum CurrentTimeEdit {
    /// Start at the given time.
    SetStart(i64),
    /// Start later by the given amount.
    LaterStart(i64),
    /// Start earlier by the given amount.
    EarlierStart(i64),
    /// End at the given time.
    SetEnd(i64),
    /// End later by the given amount.
    LaterEnd(i64),
    /// End earlier by the given amount.
    EarlierEnd(i64),
}

impl CurrentTimeEdit {
    /// The edit needs the track (for its length).
    pub open spec fn needs_track(self) -> bool {
        !(self is EarlierStart || self is EarlierEnd)
    }

    /// The selection follows the current cue where it moves.
    pub open spec fn moves_selection(self) -> bool {
        self is SetStart || self is LaterStart
    }
}

/// The cue `v` ending at `t`, and starting there too where it started later.
pub open spec fn end_pulling_start<T: TimedCue>(v: T::V, t: i64) -> T::V {
    if t < T::view_start(v) {
        T::view_with_times(v, t, t)
    } else {
        with_end::<T>(v, t)
    }
}

/// The edit applied to the cue at `i` of `s`, for a track of length
/// `duration`: the cues, and where the cue then is.
pub open spec fn current_edit_on<T: TimedCue>(s: Seq<T::V>, i: int, e: CurrentTimeEdit, duration: i64) -> (Seq<T::V>, int) {
    let x = s[i];
    match e {
        CurrentTimeEdit::SetStart(t) => if t <= duration {
            start_forward::<T>(s, i, t)
        } else if t >= 0 {
            start_backward::<T>(s, i, t)
        } else {
            (s, i)
        },
        CurrentTimeEdit::LaterStart(d) => {
            let t = T::view_start(x) + d;
            if t <= duration {
                start_forward::<T>(s, i, t as i64)
            } else {
                (s, i)
            }
        },
        CurrentTimeEdit::EarlierStart(d) => {
            let t = T::view_start(x) - d;
            if t >= 0 {
                start_backward::<T>(s, i, t as i64)
            } else {
                (s, i)
            }
        },
        CurrentTimeEdit::SetEnd(t) => if t <= duration {
            (s.update(i, with_end::<T>(x, t)), i)
        } else if t >= 0 {
            (s.update(i, end_pulling_start::<T>(x, t)), i)
        } else {
            (s, i)
        },
        CurrentTimeEdit::LaterEnd(d) => {
            let t = T::view_end(x) + d;
            if t <= duration {
                (s.update(i, with_end::<T>(x, t as i64)), i)
            } else {
                (s, i)
            }
        },
        CurrentTimeEdit::EarlierEnd(d) => {
            let t = T::view_end(x) - d;
            if t >= 0 {
                (s.update(i, end_pulling_start::<T>(x, t as i64)), i)
            } else {
                (s, i)
            }
        },
    }
}

/// The edit's arithmetic stays within `i64` on the cue `x`.
pub open spec fn edit_in_range<T: TimedCue>(x: T::V, e: CurrentTimeEdit) -> bool {
    match e {
        CurrentTimeEdit::LaterStart(d) => i64::MIN <= T::view_start(x) + d <= i64::MAX,
        CurrentTimeEdit::EarlierStart(d) => i64::MIN <= T::view_start(x) - d <= i64::MAX,
        CurrentTimeEdit::LaterEnd(d) => i64::MIN <= T::view_end(x) + d <= i64::MAX,
        CurrentTimeEdit::EarlierEnd(d) => i64::MIN <= T::view_end(x) - d <= i64::MAX,
        _ => true,
    }
}

fn current_edit_exec<T: TimedCue>(cues: &mut Vec<T>, i: usize, e: &CurrentTimeEdit, duration: i64) -> (j: usize)
    requires
        i < old(cues)@.len(),
        edit_in_range::<T>(old(cues).deep_view()[i as int], *e),
    ensures
        (final(cues).deep_view(), j as int) == current_edit_on::<T>(old(cues).deep_view(), i as int, *e, duration),
{
    let ghost s = cues.deep_view();
    let st = cues[i].start();
    let en = cues[i].end();
    proof {
        T::lemma_with_times(s[i as int], st, en);
    }
    match e {
        CurrentTimeEdit::SetStart(t) => {
            if *t <= duration {
                move_start_forward(cues, i, *t)
            } else if *t >= 0 {
                move_start_backward(cues, i, *t)
            } else {
                i
            }
        },
        CurrentTimeEdit::LaterStart(d) => {
            let t = st + *d;
            if t <= duration {
                move_start_forward(cues, i, t)
            } else {
                i
            }
        },
        CurrentTimeEdit::EarlierStart(d) => {
            let t = st - *d;
            if t >= 0 {
                move_start_backward(cues, i, t)
            } else {
                i
            }
        },
        CurrentTimeEdit::SetEnd(t) => {
            if *t <= duration {
                set_times_at(cues, i, st, *t);
            } else if *t >= 0 {
                if *t < st {
                    set_times_at(cues, i, *t, *t);
                    proof { T::lemma_with_times(s[i as int], st, *t); }
                } else {
                    set_times_at(cues, i, st, *t);
                }
            }
            assert(cues.deep_view() == current_edit_on::<T>(s, i as int, *e, duration).0);
            i
        },
        CurrentTimeEdit::LaterEnd(d) => {
            let t = en + *d;
            if t <= duration {
                set_times_at(cues, i, st, t);
            }
            i
        },
        CurrentTimeEdit::EarlierEnd(d) => {
            let t = en - *d;
            if t >= 0 {
                if t < st {
                    set_times_at(cues, i, t, t);
                    proof { T::lemma_with_times(s[i as int], st, t); }
                } else {
                    set_times_at(cues, i, st, t);
                }
            }
            assert(cues.deep_view() == current_edit_on::<T>(s, i as int, *e, duration).0);
            i
        },
    }
}

/// Where a selected cue goes when the current cue moves from `old` to `new`:
/// the current cue goes with it, and the cues it passed move back by one.
pub open spec fn follow_move(v: usize, old: usize, new: usize) -> usize {
    if v == old {
        new
    } else if new + 1 > v && old <= v {
        if v > 0 { (v - 1) as usize } else { 0 }
    } else {
        v
    }
}

/// The mode once the current cue has moved to `new`, the selection following
/// it where `adjust` holds.
pub open spec fn mode_after_move(mode: ModeView, new: usize, adjust: bool) -> ModeView {
    match mode {
        ModeView::Normal => mode,
        ModeView::Select { cue_index, selected_cues } => ModeView::Select {
            cue_index: new,
            selected_cues: if adjust {
                selected_cues.map_values(|v: usize| follow_move(v, cue_index, new))
            } else {
                selected_cues
            },
        },
        ModeView::Edit { cursor, selected_cues } => ModeView::Edit {
            cursor: Cursor { cue_index: new, ..cursor },
            selected_cues: if adjust {
                selected_cues.map_values(|c: EditCueView| EditCueView { index: follow_move(c.index, cursor.cue_index, new), ..c })
            } else {
                selected_cues
            },
        },
    }
}

fn follow_move_exec(v: usize, old: usize, new: usize) -> (r: usize)
    ensures
        r == follow_move(v, old, new),
{
    if v == old {
        new
    } else if new >= v && old <= v {
        if v > 0 { v - 1 } else { 0 }
    } else {
        v
    }
}

fn move_mode_to(mode: &mut AppMode, new: usize, adjust: bool)
    ensures
        final(mode).deep_view() == mode_after_move(old(mode).deep_view(), new, adjust),
{
    let ghost m0 = mode.deep_view();
    match mode {
        AppMode::Normal => {},
        AppMode::Select { cue_index, selected_cues } => {
            let old_index = *cue_index;
            *cue_index = new;
            if adjust {
                let n = selected_cues.len();
                let mut k: usize = 0;
                while k < n
                    invariant
                        n == selected_cues@.len(),
                        m0 matches ModeView::Select { selected_cues: s0, cue_index: c0 } && c0 == old_index && s0.len() == n
                            && (forall|m: int| 0 <= m < k ==> #[trigger] selected_cues@[m] == follow_move(s0[m], old_index, new))
                            && (forall|m: int| k <= m < n ==> #[trigger] selected_cues@[m] == s0[m]),
                        k <= n,
                    decreases n - k,
                {
                    let v = selected_cues[k];
                    let w = follow_move_exec(v, old_index, new);
                    selected_cues.set(k, w);
                    k = k + 1;
                }
                proof {
                    let s0 = m0->Select_selected_cues;
                    assert(selected_cues@ =~= s0.map_values(|v: usize| follow_move(v, old_index, new)));
                }
            }
        },
        AppMode::Edit { cursor, selected_cues } => {
            let old_index = cursor.cue_index;
            cursor.cue_index = new;
            if adjust {
                let ghost s0 = m0->Edit_selected_cues;
                let ghost v0 = selected_cues@;
                assert(s0 == selected_cues.deep_view());
                let n = selected_cues.len();
                let mut k: usize = 0;
                while k < n
                    invariant
                        n == selected_cues@.len(),
                        n == v0.len(),
                        forall|m: int| 0 <= m < k ==> #[trigger] selected_cues@[m].index == follow_move(v0[m].index, old_index, new),
                        forall|m: int| k <= m < n ==> #[trigger] selected_cues@[m].index == v0[m].index,
                        forall|m: int| 0 <= m < n ==> #[trigger] selected_cues@[m].original_content == v0[m].original_content,
                        k <= n,
                    decreases n - k,
                {
                    let e = &mut selected_cues[k];
                    e.index = follow_move_exec(e.index, old_index, new);
                    k = k + 1;
                }
                proof {
                    assert forall|m: int| 0 <= m < n implies #[trigger] selected_cues.deep_view()[m] == s0.map_values(
                        |c: EditCueView| EditCueView { index: follow_move(c.index, old_index, new), ..c },
                    )[m] by {
                        assert(s0[m] == v0[m].deep_view());
                        assert(selected_cues@[m].index == follow_move(v0[m].index, old_index, new));
                        assert(selected_cues@[m].original_content == v0[m].original_content);
                    }
                    assert(selected_cues.deep_view() =~= s0.map_values(
                        |c: EditCueView| EditCueView { index: follow_move(c.index, old_index, new), ..c },
                    ));
                }
            }
        },
    }
}

impl AppStateView {
    /// The index of the current cue (0 in the normal mode).
    pub open spec fn current_index(self) -> usize {
        match self.mode {
            ModeView::Normal => 0,
            ModeView::Select { cue_index, .. } => cue_index,
            ModeView::Edit { cursor, .. } => cursor.cue_index,
        }
    }

    /// The length of the track, or 0 without one.
    pub open spec fn track_duration(self) -> i64 {
        match self.track {
            Some(t) => t.duration,
            None => 0,
        }
    }

    /// Whether an edit of the current cue's times goes through: it needs an
    /// active document (and, but for moving earlier, a track), and the
    /// select or edit mode.
    pub open spec fn time_edit_result(self, e: CurrentTimeEdit) -> Result<(), Seq<char>> {
        if self.active_cues() is None || (e.needs_track() && self.track is None) {
            Err("No subtitle document found"@)
        } else if self.mode is Normal {
            Err("Cannot be in normal mode"@)
        } else {
            Ok(())
        }
    }

    /// The state once the current cue's times are edited.
    pub open spec fn after_current_time_edit(self, e: CurrentTimeEdit) -> AppStateView {
        if self.time_edit_result(e) is Err {
            self
        } else {
            let i = self.current_index() as int;
            let d = self.track_duration();
            match self.active_cues()->0 {
                CuesView::Word(s) => {
                    let (s2, j) = current_edit_on::<AlignedCue>(s, i, e, d);
                    self.with_active_cues(CuesView::Word(s2)).with_mode(mode_after_move(self.mode, j as usize, e.moves_selection()))
                },
                CuesView::Cue(s) => {
                    let (s2, j) = current_edit_on::<Cue>(s, i, e, d);
                    self.with_active_cues(CuesView::Cue(s2)).with_mode(mode_after_move(self.mode, j as usize, e.moves_selection()))
                },
                _ => self,
            }
        }
    }

    /// The current cue exists (where the document is timed) and the edit's
    /// arithmetic stays within `i64`.
    pub open spec fn can_edit_current_times(self, e: CurrentTimeEdit) -> bool {
        self.time_edit_result(e) is Ok ==> match self.active_cues()->0 {
            CuesView::Word(s) => self.current_index() < s.len()
                && edit_in_range::<AlignedCue>(s[self.current_index() as int], e),
            CuesView::Cue(s) => self.current_index() < s.len()
                && edit_in_range::<Cue>(s[self.current_index() as int], e),
            _ => true,
        }
    }
}

/// The result of an edit, as plain values.
pub open spec fn result_view(r: Result<(), String>) -> Result<(), Seq<char>> {
    match r {
        Ok(()) => Ok(()),
        Err(m) => Err(m@),
    }
}

impl App {
    pub(crate) fn edit_current_times(&mut self, e: CurrentTimeEdit) -> (r: Result<(), String>)
        requires
            old(self).wf(),
            old(self).state.deep_view().can_edit_current_times(e),
        ensures
            final(self).wf(),
            result_view(r) == old(self).state.deep_view().time_edit_result(e),
            final(self).state.deep_view() == old(self).state.deep_view().after_current_time_edit(e),
            final(self).keeps_engine(*old(self)),
    {
        let needs_track = match e {
            CurrentTimeEdit::EarlierStart(_) => false,
            CurrentTimeEdit::EarlierEnd(_) => false,
            _ => true,
        };
        let moves = match e {
            CurrentTimeEdit::SetStart(_) => true,
            CurrentTimeEdit::LaterStart(_) => true,
            _ => false,
        };
        let idx = match self.state.subtitle_documents.active_index() {
            Some(i) => i,
            None => return Err(String::from_str("No subtitle document found")),
        };
        if needs_track && self.state.track.is_none() {
            return Err(String::from_str("No subtitle document found"));
        }
        let ci = match &self.state.app_mode {
            AppMode::Normal => return Err(String::from_str("Cannot be in normal mode")),
            AppMode::Select { cue_index, .. } => *cue_index,
            AppMode::Edit { cursor, .. } => cursor.cue_index,
        };
        let duration = match &self.state.track {
            Some(t) => t.duration,
            None => 0,
        };
        let ghost s = self.state.deep_view();
        let doc = &mut self.state.subtitle_documents.documents[idx].state.document;
        match &mut doc.cues {
            SubtitleCues::Word(cues) => {
                let j = current_edit_exec(cues, ci, &e, duration);
                move_mode_to(&mut self.state.app_mode, j, moves);
            },
            SubtitleCues::Cue(cues) => {
                let j = current_edit_exec(cues, ci, &e, duration);
                move_mode_to(&mut self.state.app_mode, j, moves);
            },
            _ => {},
        }
        proof {
            match s.active_cues()->0 {
                CuesView::Word(q) => {
                    let c2 = CuesView::Word(current_edit_on::<AlignedCue>(q, ci as int, e, duration).0);
                    crate::state::lemma_with_active_cues(s, c2);
                    assert(self.state.deep_view().documents.entries =~= s.with_active_cues(c2).documents.entries);
                },
                CuesView::Cue(q) => {
                    let c2 = CuesView::Cue(current_edit_on::<Cue>(q, ci as int, e, duration).0);
                    crate::state::lemma_with_active_cues(s, c2);
                    assert(self.state.deep_view().documents.entries =~= s.with_active_cues(c2).documents.entries);
                },
                _ => {
                    assert(self.state.deep_view().documents.entries =~= s.documents.entries);
                },
            }
        }
        Ok(())
    }

    /// Makes the current cue start at `new_position` (microseconds): within
    /// the track it moves forward past the cues that start before it and an
    /// end before its start is fixed; past the track's end it moves back past
    /// the cues that start after it. The selection follows.
    pub fn set_current_cue_start_time(&mut self, new_position: i64) -> (r: Result<(), String>)
        requires
            old(self).wf(),
            old(self).state.deep_view().can_edit_current_times(CurrentTimeEdit::SetStart(new_position)),
        ensures
            final(self).wf(),
            result_view(r) == old(self).state.deep_view().time_edit_result(CurrentTimeEdit::SetStart(new_position)),
            final(self).state.deep_view() == old(self).state.deep_view().after_current_time_edit(
                CurrentTimeEdit::SetStart(new_position),
            ),
            final(self).keeps_engine(*old(self)),
    {
        self.edit_current_times(CurrentTimeEdit::SetStart(new_position))
    }

    /// Makes the current cue end at `new_position` (microseconds); past the
    /// track's end, a start after it is pulled back to it.
    pub fn set_current_cue_end_time(&mut self, new_position: i64) -> (r: Result<(), String>)
        requires
            old(self).wf(),
            old(self).state.deep_view().can_edit_current_times(CurrentTimeEdit::SetEnd(new_position)),
        ensures
            final(self).wf(),
            result_view(r) == old(self).state.deep_view().time_edit_result(CurrentTimeEdit::SetEnd(new_position)),
            final(self).state.deep_view() == old(self).state.deep_view().after_current_time_edit(
                CurrentTimeEdit::SetEnd(new_position),
            ),
            final(self).keeps_engine(*old(self)),
    {
        self.edit_current_times(CurrentTimeEdit::SetEnd(new_position))
    }

    /// Starts the current cue later by `forwards_cue_increment`, within the
    /// track, moving it forward past the cues that then start before it.
    pub fn increase_current_cue_start_time(&mut self, forwards_cue_increment: i64) -> (r: Result<(), String>)
        requires
            old(self).wf(),
            old(self).state.deep_view().can_edit_current_times(CurrentTimeEdit::LaterStart(forwards_cue_increment)),
        ensures
            final(self).wf(),
            result_view(r) == old(self).state.deep_view().time_edit_result(CurrentTimeEdit::LaterStart(forwards_cue_increment)),
            final(self).state.deep_view() == old(self).state.deep_view().after_current_time_edit(
                CurrentTimeEdit::LaterStart(forwards_cue_increment),
            ),
            final(self).keeps_engine(*old(self)),
    {
        self.edit_current_times(CurrentTimeEdit::LaterStart(forwards_cue_increment))
    }

    /// Ends the current cue later by `forwards_cue_increment`, within the
    /// track.
    pub fn increase_current_cue_end_time(&mut self, forwards_cue_increment: i64) -> (r: Result<(), String>)
        requires
            old(self).wf(),
            old(self).state.deep_view().can_edit_current_times(CurrentTimeEdit::LaterEnd(forwards_cue_increment)),
        ensures
            final(self).wf(),
            result_view(r) == old(self).state.deep_view().time_edit_result(CurrentTimeEdit::LaterEnd(forwards_cue_increment)),
            final(self).state.deep_view() == old(self).state.deep_view().after_current_time_edit(
                CurrentTimeEdit::LaterEnd(forwards_cue_increment),
            ),
            final(self).keeps_engine(*old(self)),
    {
        self.edit_current_times(CurrentTimeEdit::LaterEnd(forwards_cue_increment))
    }

    /// Starts the current cue earlier by `backwards_cue_increment`, not before
    /// zero, moving it back past the cues that then start after it.
    pub fn decrease_current_cue_start_time(&mut self, backwards_cue_increment: i64) -> (r: Result<(), String>)
        requires
            old(self).wf(),
            old(self).state.deep_view().can_edit_current_times(CurrentTimeEdit::EarlierStart(backwards_cue_increment)),
        ensures
            final(self).wf(),
            result_view(r) == old(self).state.deep_view().time_edit_result(CurrentTimeEdit::EarlierStart(backwards_cue_increment)),
            final(self).state.deep_view() == old(self).state.deep_view().after_current_time_edit(
                CurrentTimeEdit::EarlierStart(backwards_cue_increment),
            ),
            final(self).keeps_engine(*old(self)),
    {
        self.edit_current_times(CurrentTimeEdit::EarlierStart(backwards_cue_increment))
    }

    /// Ends the current cue earlier by `backwards_cue_increment`, not before
    /// zero, pulling a later start back to the new end.
    pub fn decrease_current_cue_end_time(&mut self, backwards_cue_increment: i64) -> (r: Result<(), String>)
        requires
            old(self).wf(),
            old(self).state.deep_view().can_edit_current_times(CurrentTimeEdit::EarlierEnd(backwards_cue_increment)),
        ensures
            final(self).wf(),
            result_view(r) == old(self).state.deep_view().time_edit_result(CurrentTimeEdit::EarlierEnd(backwards_cue_increment)),
            final(self).state.deep_view() == old(self).state.deep_view().after_current_time_edit(
                CurrentTimeEdit::EarlierEnd(backwards_cue_increment),
            ),
            final(self).keeps_engine(*old(self)),
    {
        self.edit_current_times(CurrentTimeEdit::EarlierEnd(backwards_cue_increment))
    }
}

// ---------------------------------------------------------------------------
// All cues.

/// A change of the times of every cue, by a number of microseconds.
#[derive(Clone, Copy, PartialEq, Eq, Structural)]
pub enum AllTimesEdit {
    /// Every cue starts later, within the track.
    LaterStarts(i64),
    /// Every cue ends later, within the track.
    LaterEnds(i64),
    /// Every cue starts earlier, not before zero.
    EarlierStarts(i64),
    /// Every cue ends earlier, not before zero.
    EarlierEnds(i64),
}

impl AllTimesEdit {
    /// The edit needs the track (for its length).
    pub open spec fn needs_track(self) -> bool {
        self is LaterStarts || self is LaterEnds
    }
}

/// Cue `i` of `s` once changed by the edit, for a track of length `duration`:
/// a cue made to start after its end ends where the first later cue that
/// starts after it starts (where there is one).
pub open spec fn shifted_cue<T: TimedCue>(s: Seq<T::V>, i: int, e: AllTimesEdit, duration: i64) -> T::V {
    let x = s[i];
    match e {
        AllTimesEdit::LaterStarts(d) => {
            let t = T::view_start(x) + d;
            let y = if t <= duration { with_start::<T>(x, t as i64) } else { x };
            if T::view_start(y) > T::view_end(y) {
                match first_start_after::<T>(s, i + 1, T::view_start(y)) {
                    Some(n) => with_end::<T>(y, n),
                    None => y,
                }
            } else {
                y
            }
        },
        AllTimesEdit::LaterEnds(d) => {
            let t = T::view_end(x) + d;
            if t <= duration { with_end::<T>(x, t as i64) } else { x }
        },
        AllTimesEdit::EarlierStarts(d) => {
            let t = T::view_start(x) - d;
            if t >= 0 { with_start::<T>(x, t as i64) } else { x }
        },
        AllTimesEdit::EarlierEnds(d) => {
            let t = T::view_end(x) - d;
            if t >= 0 { end_pulling_start::<T>(x, t as i64) } else { x }
        },
    }
}

/// Every cue changed by the edit, then the cues sorted by start (stably).
pub open spec fn all_shifted<T: TimedCue>(s: Seq<T::V>, e: AllTimesEdit, duration: i64) -> Seq<T::V> {
    sort_by_key(Seq::new(s.len(), |i: int| shifted_cue::<T>(s, i, e, duration)), key_fn::<T>())
}

/// The edit's arithmetic stays within `i64` on every cue.
pub open spec fn all_in_range<T: TimedCue>(s: Seq<T::V>, e: AllTimesEdit) -> bool {
    forall|i: int| 0 <= i < s.len() ==> match e {
        AllTimesEdit::LaterStarts(d) => i64::MIN <= T::view_start(#[trigger] s[i]) + d <= i64::MAX,
        AllTimesEdit::LaterEnds(d) => i64::MIN <= T::view_end(s[i]) + d <= i64::MAX,
        AllTimesEdit::EarlierStarts(d) => i64::MIN <= T::view_start(s[i]) - d <= i64::MAX,
        AllTimesEdit::EarlierEnds(d) => i64::MIN <= T::view_end(s[i]) - d <= i64::MAX,
    }
}

fn all_shifted_exec<T: TimedCue>(cues: &mut Vec<T>, e: &AllTimesEdit, duration: i64)
    requires
        all_in_range::<T>(old(cues).deep_view(), *e),
    ensures
        final(cues).deep_view() == all_shifted::<T>(old(cues).deep_view(), *e, duration),
{
    let ghost s = cues.deep_view();
    let n = cues.len();
    let mut i: usize = 0;
    while i < n
        invariant
            n == s.len(),
            cues@.len() == n,
            i <= n,
            all_in_range::<T>(s, *e),
            forall|k: int| 0 <= k < i ==> #[trigger] cues.deep_view()[k] == shifted_cue::<T>(s, k, *e, duration),
            forall|k: int| i <= k < n ==> #[trigger] cues.deep_view()[k] == s[k],
        decreases n - i,
    {
        let ghost before = cues.deep_view();
        assert(before[i as int] == s[i as int]);
        let st = cues[i].start();
        let en = cues[i].end();
        proof {
            T::lemma_with_times(s[i as int], st, en);
        }
        match e {
            AllTimesEdit::LaterStarts(d) => {
                let t = st + *d;
                let st2 = if t <= duration { t } else { st };
                proof { T::lemma_with_times(s[i as int], st2, en); }
                if st2 > en {
                    assert(forall|k: int| i < k < n ==> before[k] == s[k]);
                    assert(first_start_after::<T>(before, i + 1, st2) == first_start_after::<T>(s, i + 1, st2)) by {
                        lemma_first_start_after_same::<T>(before, s, i as int + 1, st2);
                    }
                    match find_start_after(cues, i + 1, st2) {
                        Some(nx) => {
                            set_times_at(cues, i, st2, nx);
                            proof { T::lemma_with_times(s[i as int], st2, nx); }
                        },
                        None => set_times_at(cues, i, st2, en),
                    }
                } else {
                    set_times_at(cues, i, st2, en);
                }
                assert(cues.deep_view()[i as int] == shifted_cue::<T>(s, i as int, *e, duration));
            },
            AllTimesEdit::LaterEnds(d) => {
                let t = en + *d;
                if t <= duration {
                    set_times_at(cues, i, st, t);
                }
                assert(cues.deep_view()[i as int] == shifted_cue::<T>(s, i as int, *e, duration));
            },
            AllTimesEdit::EarlierStarts(d) => {
                let t = st - *d;
                if t >= 0 {
                    set_times_at(cues, i, t, en);
                }
                assert(cues.deep_view()[i as int] == shifted_cue::<T>(s, i as int, *e, duration));
            },
            AllTimesEdit::EarlierEnds(d) => {
                let t = en - *d;
                if t >= 0 {
                    if t < st {
                        set_times_at(cues, i, t, t);
                    } else {
                        set_times_at(cues, i, st, t);
                    }
                }
            },
        }
        assert(cues.deep_view()[i as int] == shifted_cue::<T>(s, i as int, *e, duration));
        i = i + 1;
    }
    let ghost mapped = Seq::new(s.len(), |k: int| shifted_cue::<T>(s, k, *e, duration));
    assert(cues.deep_view() =~= mapped);
    let mut v: Vec<T> = Vec::new();
    std::mem::swap(&mut v, cues);
    let sorted = crate::sort::sort_by_key_exec(v);
    *cues = sorted;
}

proof fn lemma_first_start_after_same<T: TimedCue>(a: Seq<T::V>, b: Seq<T::V>, k: int, t: i64)
    requires
        a.len() == b.len(),
        forall|m: int| k <= m < a.len() ==> a[m] == b[m],
    ensures
        first_start_after::<T>(a, k, t) == first_start_after::<T>(b, k, t),
    decreases a.len() - k,
{
    if 0 <= k < a.len() {
        lemma_first_start_after_same::<T>(a, b, k + 1, t);
    } else if k < 0 {
        assert(first_start_after::<T>(a, k, t) == first_start_after::<T>(b, k, t));
    }
}

impl AppStateView {
    /// The state once every cue's times are changed by the edit (no change
    /// without an active document, or without a track where the edit needs
    /// one, or for cues without times).
    pub open spec fn after_all_times_edit(self, e: AllTimesEdit) -> AppStateView {
        if self.active_cues() is None || (e.needs_track() && self.track is None) {
            self
        } else {
            let d = self.track_duration();
            match self.active_cues()->0 {
                CuesView::Word(s) => self.with_active_cues(CuesView::Word(all_shifted::<AlignedCue>(s, e, d))),
                CuesView::Cue(s) => self.with_active_cues(CuesView::Cue(all_shifted::<Cue>(s, e, d))),
                _ => self,
            }
        }
    }

    /// The edit's arithmetic stays within `i64` on the active document.
    pub open spec fn can_edit_all_times(self, e: AllTimesEdit) -> bool {
        match self.active_cues() {
            Some(CuesView::Word(s)) => all_in_range::<AlignedCue>(s, e),
            Some(CuesView::Cue(s)) => all_in_range::<Cue>(s, e),
            _ => true,
        }
    }
}

impl App {
    pub(crate) fn edit_all_times(&mut self, e: AllTimesEdit)
        requires
            old(self).wf(),
            old(self).state.deep_view().can_edit_all_times(e),
        ensures
            final(self).wf(),
            final(self).state.deep_view() == old(self).state.deep_view().after_all_times_edit(e),
            final(self).keeps_engine(*old(self)),
    {
        let needs_track = match e {
            AllTimesEdit::LaterStarts(_) => true,
            AllTimesEdit::LaterEnds(_) => true,
            _ => false,
        };
        let idx = match self.state.subtitle_documents.active_index() {
            Some(i) => i,
            None => return,
        };
        if needs_track && self.state.track.is_none() {
            return;
        }
        let duration = match &self.state.track {
            Some(t) => t.duration,
            None => 0,
        };
        let ghost s = self.state.deep_view();
        let doc = &mut self.state.subtitle_documents.documents[idx].state.document;
        match &mut doc.cues {
            SubtitleCues::Word(cues) => all_shifted_exec(cues, &e, duration),
            SubtitleCues::Cue(cues) => all_shifted_exec(cues, &e, duration),
            _ => {},
        }
        proof {
            match s.active_cues()->0 {
                CuesView::Word(q) => {
                    let c2 = CuesView::Word(all_shifted::<AlignedCue>(q, e, duration));
                    crate::state::lemma_with_active_cues(s, c2);
                    assert(self.state.deep_view().documents.entries =~= s.with_active_cues(c2).documents.entries);
                },
                CuesView::Cue(q) => {
                    let c2 = CuesView::Cue(all_shifted::<Cue>(q, e, duration));
                    crate::state::lemma_with_active_cues(s, c2);
                    assert(self.state.deep_view().documents.entries =~= s.with_active_cues(c2).documents.entries);
                },
                _ => {
                    assert(self.state.deep_view().documents.entries =~= s.documents.entries);
                },
            }
        }
    }

    /// Starts every cue later by `forwards_cue_increment` where it stays
    /// within the track (fixing ends that fall before their start), then
    /// sorts the cues by start.
    pub fn increase_all_cue_start_times(&mut self, forwards_cue_increment: i64)
        requires
            old(self).wf(),
            old(self).state.deep_view().can_edit_all_times(AllTimesEdit::LaterStarts(forwards_cue_increment)),
        ensures
            final(self).wf(),
            final(self).state.deep_view() == old(self).state.deep_view().after_all_times_edit(
                AllTimesEdit::LaterStarts(forwards_cue_increment),
            ),
            final(self).keeps_engine(*old(self)),
    {
        self.edit_all_times(AllTimesEdit::LaterStarts(forwards_cue_increment))
    }

    /// Ends every cue later by `forwards_cue_increment` where it stays within
    /// the track, then sorts the cues by start.
    pub fn increase_all_cue_end_times(&mut self, forwards_cue_increment: i64)
        requires
            old(self).wf(),
            old(self).state.deep_view().can_edit_all_times(AllTimesEdit::LaterEnds(forwards_cue_increment)),
        ensures
            final(self).wf(),
            final(self).state.deep_view() == old(self).state.deep_view().after_all_times_edit(
                AllTimesEdit::LaterEnds(forwards_cue_increment),
            ),
            final(self).keeps_engine(*old(self)),
    {
        self.edit_all_times(AllTimesEdit::LaterEnds(forwards_cue_increment))
    }

    /// Starts every cue earlier by `backwards_cue_increment` where it stays
    /// at or after zero, then sorts the cues by start.
    pub fn decrease_all_cue_start_times(&mut self, backwards_cue_increment: i64)
        requires
            old(self).wf(),
            old(self).state.deep_view().can_edit_all_times(AllTimesEdit::EarlierStarts(backwards_cue_increment)),
        ensures
            final(self).wf(),
            final(self).state.deep_view() == old(self).state.deep_view().after_all_times_edit(
                AllTimesEdit::EarlierStarts(backwards_cue_increment),
            ),
            final(self).keeps_engine(*old(self)),
    {
        self.edit_all_times(AllTimesEdit::EarlierStarts(backwards_cue_increment))
    }

    /// Ends every cue earlier by `backwards_cue_increment` where it stays at
    /// or after zero (pulling a later start back to it), then sorts the cues
    /// by start.
    pub fn decrease_all_cue_end_times(&mut self, backwards_cue_increment: i64)
        requires
            old(self).wf(),
            old(self).state.deep_view().can_edit_all_times(AllTimesEdit::EarlierEnds(backwards_cue_increment)),
        ensures
            final(self).wf(),
            final(self).state.deep_view() == old(self).state.deep_view().after_all_times_edit(
                AllTimesEdit::EarlierEnds(backwards_cue_increment),
            ),
            final(self).keeps_engine(*old(self)),
    {
        self.edit_all_times(AllTimesEdit::EarlierEnds(backwards_cue_increment))
    }
}

// ---------------------------------------------------------------------------
// Given times.

/// A cue with the index it is to be put in at.
pub struct PlacedCue<T> {
    pub index: usize,
    pub cue: T,
}

impl<T: DeepView> DeepView for PlacedCue<T> {
    type V = (usize, T::V);

    open spec fn deep_view(&self) -> (usize, T::V) {
        (self.index, self.cue.deep_view())
    }
}

impl<T: DeepView> crate::sort::SortKey for PlacedCue<T> {
    open spec fn key_of(v: (usize, T::V)) -> int {
        v.0 as int
    }

    fn key_greater(&self, other: &Self) -> (r: bool) {
        self.index > other.index
    }
}

/// The cues taken out one by one at the old indices of the changes (in the
/// order given), each given its new times and paired with its new index.
pub open spec fn take_out_each<T: TimedCue>(s: Seq<T::V>, ch: Seq<CueTimeChange>) -> (Seq<T::V>, Seq<(usize, T::V)>)
    decreases ch.len(),
{
    if ch.len() == 0 {
        (s, Seq::empty())
    } else {
        let (rest, taken) = take_out_each::<T>(s, ch.drop_last());
        let c = ch.last();
        (
            rest.remove(c.old_index as int),
            taken.push((c.new_index, T::view_with_times(rest[c.old_index as int], c.new_start, c.new_end))),
        )
    }
}

/// The cues put in one by one at their indices.
pub open spec fn put_in_each<A>(s: Seq<A>, items: Seq<(usize, A)>) -> Seq<A>
    decreases items.len(),
{
    if items.len() == 0 {
        s
    } else {
        put_in_each(s, items.drop_last()).insert(items.last().0 as int, items.last().1)
    }
}

/// The changes in decreasing order of old index (stably).
pub open spec fn changes_by_old_desc(ch: Seq<CueTimeChange>) -> Seq<CueTimeChange> {
    sort_by_key(ch, key_fn::<CueTimeChange>())
}

/// The cues given new times and indices: each taken out, from the highest
/// old index down, then all put in at their new indices, from the lowest up.
pub open spec fn times_set<T: TimedCue>(s: Seq<T::V>, ch: Seq<CueTimeChange>) -> Seq<T::V> {
    let (rest, taken) = take_out_each::<T>(s, changes_by_old_desc(ch));
    put_in_each(rest, sort_by_key(taken, key_fn::<PlacedCue<T>>()))
}

/// Each cue can be taken out and put back in: the `k`-th old index is within
/// what `k` removals left, and the `k`-th new index (in increasing order) at
/// most what `k` insertions made.
pub open spec fn times_fit<T: TimedCue>(s: Seq<T::V>, ch: Seq<CueTimeChange>) -> bool {
    let d = changes_by_old_desc(ch);
    let (rest, taken) = take_out_each::<T>(s, d);
    let p = sort_by_key(taken, key_fn::<PlacedCue<T>>());
    &&& forall|k: int| 0 <= k < d.len() ==> (#[trigger] d[k]).old_index < s.len() - k
    &&& forall|k: int| 0 <= k < p.len() ==> (#[trigger] p[k]).0 <= rest.len() + k
}

proof fn lemma_take_out_len<T: TimedCue>(s: Seq<T::V>, ch: Seq<CueTimeChange>)
    requires
        forall|k: int| 0 <= k < ch.len() ==> (#[trigger] ch[k]).old_index < s.len() - k,
    ensures
        take_out_each::<T>(s, ch).0.len() == s.len() - ch.len(),
        take_out_each::<T>(s, ch).1.len() == ch.len(),
    decreases ch.len(),
{
    if ch.len() > 0 {
        let d = ch.drop_last();
        assert forall|k: int| 0 <= k < d.len() implies (#[trigger] d[k]).old_index < s.len() - k by {
            assert(d[k] == ch[k]);
        }
        lemma_take_out_len::<T>(s, d);
        assert(ch[ch.len() - 1].old_index < s.len() - (ch.len() - 1));
    }
}

fn take_out_each_exec<T: TimedCue>(cues: &mut Vec<T>, ch: &Vec<CueTimeChange>) -> (taken: Vec<PlacedCue<T>>)
    requires
        forall|k: int| 0 <= k < ch@.len() ==> (#[trigger] ch@[k]).old_index < old(cues)@.len() - k,
    ensures
        (final(cues).deep_view(), taken.deep_view()) == take_out_each::<T>(old(cues).deep_view(), ch@),
{
    let ghost s = cues.deep_view();
    let mut taken: Vec<PlacedCue<T>> = Vec::new();
    let n = ch.len();
    let mut i: usize = 0;
    assert(ch@.take(0) =~= Seq::<CueTimeChange>::empty());
    assert(taken.deep_view() =~= Seq::<(usize, T::V)>::empty());
    while i < n
        invariant
            n == ch@.len(),
            i <= n,
            forall|k: int| 0 <= k < ch@.len() ==> (#[trigger] ch@[k]).old_index < s.len() - k,
            (cues.deep_view(), taken.deep_view()) == take_out_each::<T>(s, ch@.take(i as int)),
        decreases n - i,
    {
        let ghost pre = ch@.take(i as int + 1);
        proof {
            assert(pre.drop_last() =~= ch@.take(i as int));
            assert(pre.last() == ch@[i as int]);
            assert forall|k: int| 0 <= k < ch@.take(i as int).len() implies (#[trigger] ch@.take(i as int)[k]).old_index < s.len() - k by {
                assert(ch@.take(i as int)[k] == ch@[k]);
            }
            lemma_take_out_len::<T>(s, ch@.take(i as int));
        }
        let c = ch[i];
        let mut cue = crate::seqs::remove_at(cues, c.old_index);
        cue.set_times(c.new_start, c.new_end);
        let ghost before = taken.deep_view();
        taken.push(PlacedCue { index: c.new_index, cue });
        assert(taken.deep_view() =~= before.push((c.new_index, T::view_with_times(
            take_out_each::<T>(s, ch@.take(i as int)).0[c.old_index as int], c.new_start, c.new_end))));
        i = i + 1;
    }
    assert(ch@.take(n as int) =~= ch@);
    taken
}

fn put_in_each_exec<T: TimedCue>(cues: &mut Vec<T>, items: Vec<PlacedCue<T>>)
    requires
        forall|k: int| 0 <= k < items@.len() ==> (#[trigger] items@[k]).index <= old(cues)@.len() + k,
    ensures
        final(cues).deep_view() == put_in_each(old(cues).deep_view(), items.deep_view()),
{
    let ghost s = cues.deep_view();
    let ghost all = items.deep_view();
    let mut rest = items;
    let n = rest.len();
    let mut i: usize = 0;
    assert(all.take(0) =~= Seq::<(usize, T::V)>::empty());
    while i < n
        invariant
            n == all.len(),
            i <= n,
            rest.deep_view() == all.skip(i as int),
            forall|k: int| 0 <= k < n ==> (#[trigger] all[k]).0 <= s.len() + k,
            cues@.len() == s.len() + i,
            cues.deep_view() == put_in_each(s, all.take(i as int)),
        decreases n - i,
    {
        proof {
            let pre = all.take(i as int + 1);
            assert(pre.drop_last() =~= all.take(i as int));
            assert(pre.last() == all[i as int]);
            assert(rest.deep_view()[0] == all[i as int]);
        }
        assert(rest.deep_view().len() == rest@.len());
        let p = crate::seqs::remove_at(&mut rest, 0);
        assert(rest.deep_view() =~= all.skip(i as int + 1));
        crate::seqs::insert_at(cues, p.index, p.cue);
        i = i + 1;
    }
    assert(all.take(n as int) =~= all);
}

/// `times_set` for each level of cues; cues without times stay.
pub open spec fn times_set_in(c: CuesView, ch: Seq<CueTimeChange>) -> CuesView {
    match c {
        CuesView::Word(s) => CuesView::Word(times_set::<AlignedCue>(s, ch)),
        CuesView::Cue(s) => CuesView::Cue(times_set::<Cue>(s, ch)),
        _ => c,
    }
}

/// `times_fit` for the level of `c`.
pub open spec fn times_fit_in(c: CuesView, ch: Seq<CueTimeChange>) -> bool {
    match c {
        CuesView::Word(s) => times_fit::<AlignedCue>(s, ch),
        CuesView::Cue(s) => times_fit::<Cue>(s, ch),
        _ => true,
    }
}

fn times_set_exec<T: TimedCue>(cues: &mut Vec<T>, sorted: &Vec<CueTimeChange>, Ghost(ch): Ghost<Seq<CueTimeChange>>)
    requires
        sorted@ == changes_by_old_desc(ch),
        times_fit::<T>(old(cues).deep_view(), ch),
    ensures
        final(cues).deep_view() == times_set::<T>(old(cues).deep_view(), ch),
{
    let ghost s = cues.deep_view();
    let taken = take_out_each_exec(cues, sorted);
    let placed = crate::sort::sort_by_key_exec(taken);
    let ghost d = changes_by_old_desc(ch);
    let ghost rest = take_out_each::<T>(s, d).0;
    let ghost p = sort_by_key(take_out_each::<T>(s, d).1, key_fn::<PlacedCue<T>>());
    assert(forall|k: int| 0 <= k < p.len() ==> (#[trigger] p[k]).0 <= rest.len() + k);
    assert(placed.deep_view() == p);
    assert forall|k: int| 0 <= k < placed@.len() implies (#[trigger] placed@[k]).index <= cues@.len() + k by {
        assert(placed.deep_view()[k].0 == placed@[k].index);
        assert(p[k].0 <= rest.len() + k);
        assert(cues.deep_view().len() == cues@.len());
    }
    put_in_each_exec(cues, placed);
}

impl AppStateView {
    /// The state once the given changes of times are made.
    pub open spec fn after_set_times(self, ch: Seq<CueTimeChange>) -> AppStateView {
        let s = self.normal_without_track();
        match s.active_cues() {
            Some(c) => s.with_active_cues(times_set_in(c, ch)),
            None => s.with_mode(ModeView::Normal),
        }
    }

    /// The given changes of times can be made without going out of bounds.
    pub open spec fn can_set_times(self, ch: Seq<CueTimeChange>) -> bool {
        let s = self.normal_without_track();
        s.active_cues() matches Some(c) ==> times_fit_in(c, ch)
    }
}

impl App {
    /// Gives cues new times and indices: each changed cue is taken out (the
    /// highest old index first), given its new times, and all are put in at
    /// their new indices (the lowest first).
    pub fn set_times(&mut self, changes: Vec<CueTimeChange>)
        requires
            old(self).wf(),
            old(self).state.deep_view().can_set_times(changes@),
        ensures
            final(self).wf(),
            final(self).state.deep_view() == old(self).state.deep_view().after_set_times(changes@),
            final(self).keeps_engine(*old(self)),
    {
        let ghost ch = changes@;
        assert(changes.deep_view() =~= ch);
        if self.state.track.is_none() {
            self.switch_to_normal_mode();
        }
        let sorted = crate::sort::sort_by_key_exec(changes);
        assert(sorted@ =~= sorted.deep_view());
        match self.state.subtitle_documents.active_index() {
            Some(i) => {
                let ghost s = self.state.deep_view();
                let doc = &mut self.state.subtitle_documents.documents[i].state.document;
                match &mut doc.cues {
                    SubtitleCues::Word(cues) => times_set_exec(cues, &sorted, Ghost(ch)),
                    SubtitleCues::Cue(cues) => times_set_exec(cues, &sorted, Ghost(ch)),
                    _ => {},
                }
                proof {
                    let c2 = times_set_in(s.active_cues()->0, ch);
                    crate::state::lemma_with_active_cues(s, c2);
                    assert(self.state.deep_view().documents.entries =~= s.with_active_cues(c2).documents.entries);
                }
            },
            None => self.switch_to_normal_mode(),
        }
    }
}

// ---------------------------------------------------------------------------
// Order of start.

/// The cues are in order of start.
pub open spec fn starts_sorted<T: TimedCue>(s: Seq<T::V>) -> bool {
    forall|a: int, b: int| 0 <= a < b < s.len() ==> T::view_start(s[a]) <= T::view_start(s[b])
}

/// The cues of `c` are in order of start (cues without times always are).
pub open spec fn cues_starts_sorted(c: CuesView) -> bool {
    match c {
        CuesView::Word(s) => starts_sorted::<AlignedCue>(s),
        CuesView::Cue(s) => starts_sorted::<Cue>(s),
        _ => true,
    }
}

proof fn lemma_fix_end_starts<T: TimedCue>(r: Seq<T::V>, j: int)
    requires
        0 <= j < r.len(),
    ensures
        fix_end::<T>(r, j).len() == r.len(),
        forall|k: int| 0 <= k < r.len() ==> T::view_start(#[trigger] fix_end::<T>(r, j)[k]) == T::view_start(r[k]),
{
    let x = r[j];
    if T::view_start(x) > T::view_end(x) {
        if let Some(e) = first_start_after::<T>(r, j + 1, T::view_start(x)) {
            T::lemma_with_times(x, T::view_start(x), e);
        }
    }
}

/// A cue starting later and moved forward keeps cues in order of start.
proof fn lemma_start_forward_sorted<T: TimedCue>(s: Seq<T::V>, i: int, t: i64)
    requires
        0 <= i < s.len(),
        starts_sorted::<T>(s),
        T::view_start(s[i]) <= t,
    ensures
        starts_sorted::<T>(start_forward::<T>(s, i, t).0),
{
    lemma_forward_stop::<T>(s, i, t);
    let j = forward_stop::<T>(s, i, t);
    let x = with_start::<T>(s[i], t);
    T::lemma_with_times(s[i], t, T::view_end(s[i]));
    let r = s.remove(i).insert(j, x);
    assert forall|k: int| 0 <= k < r.len() implies T::view_start(#[trigger] r[k]) == (if k < i {
        T::view_start(s[k])
    } else if k < j {
        T::view_start(s[k + 1])
    } else if k == j {
        t
    } else {
        T::view_start(s[k])
    }) by {}
    assert forall|a: int, b: int| 0 <= a < b < r.len() implies T::view_start(r[a]) <= T::view_start(r[b]) by {
        if j + 1 < s.len() {
            assert(T::view_start(s[j + 1]) >= t);
        }
        if b > j && j + 1 < s.len() {
            assert(T::view_start(s[j + 1]) <= T::view_start(s[b]));
        }
        if a < i {
            assert(T::view_start(s[a]) <= T::view_start(s[i]));
        }
    }
    lemma_fix_end_starts::<T>(r, j);
}

/// A cue starting earlier and moved back keeps cues in order of start.
proof fn lemma_start_backward_sorted<T: TimedCue>(s: Seq<T::V>, i: int, t: i64)
    requires
        0 <= i < s.len(),
        starts_sorted::<T>(s),
        t <= T::view_start(s[i]),
    ensures
        starts_sorted::<T>(start_backward::<T>(s, i, t).0),
{
    lemma_backward_stop::<T>(s, i, t);
    let j = backward_stop::<T>(s, i, t);
    let x = with_start::<T>(s[i], t);
    T::lemma_with_times(s[i], t, T::view_end(s[i]));
    let r = s.remove(i).insert(j, x);
    assert forall|k: int| 0 <= k < r.len() implies T::view_start(#[trigger] r[k]) == (if k < j {
        T::view_start(s[k])
    } else if k == j {
        t
    } else if k <= i {
        T::view_start(s[k - 1])
    } else {
        T::view_start(s[k])
    }) by {}
    assert forall|a: int, b: int| 0 <= a < b < r.len() implies T::view_start(r[a]) <= T::view_start(r[b]) by {
        if j > 0 {
            assert(T::view_start(s[j - 1]) <= t);
        }
        if a < j && j > 0 {
            assert(T::view_start(s[a]) <= T::view_start(s[j - 1]));
        }
        if b > i {
            assert(T::view_start(s[i]) <= T::view_start(s[b]));
        }
    }
}

/// Moving the current cue's start later or earlier (by a non-negative
/// amount) keeps the cues of the active document in order of start.
pub proof fn law_start_shift_keeps_order(s: AppStateView, e: CurrentTimeEdit)
    requires
        s.documents.wf(),
        s.can_edit_current_times(e),
        e matches CurrentTimeEdit::LaterStart(d) ==> d >= 0,
        e matches CurrentTimeEdit::EarlierStart(d) ==> d >= 0,
        e is LaterStart || e is EarlierStart,
        s.active_cues() matches Some(c) && cues_starts_sorted(c),
    ensures
        s.after_current_time_edit(e).active_cues() matches Some(c) && cues_starts_sorted(c),
{
    if s.time_edit_result(e) is Ok {
        let i = s.current_index() as int;
        let d = s.track_duration();
        match s.active_cues()->0 {
            CuesView::Word(q) => {
                let c2 = CuesView::Word(current_edit_on::<AlignedCue>(q, i, e, d).0);
                crate::state::lemma_with_active_cues(s, c2);
                match e {
                    CurrentTimeEdit::LaterStart(a) => {
                        if q[i].start + a <= d {
                            lemma_start_forward_sorted::<AlignedCue>(q, i, (q[i].start + a) as i64);
                        }
                    },
                    CurrentTimeEdit::EarlierStart(a) => {
                        if q[i].start - a >= 0 {
                            lemma_start_backward_sorted::<AlignedCue>(q, i, (q[i].start - a) as i64);
                        }
                    },
                    _ => {},
                }
            },
            CuesView::Cue(q) => {
                let c2 = CuesView::Cue(current_edit_on::<Cue>(q, i, e, d).0);
                crate::state::lemma_with_active_cues(s, c2);
                match e {
                    CurrentTimeEdit::LaterStart(a) => {
                        if q[i].start + a <= d {
                            lemma_start_forward_sorted::<Cue>(q, i, (q[i].start + a) as i64);
                        }
                    },
                    CurrentTimeEdit::EarlierStart(a) => {
                        if q[i].start - a >= 0 {
                            lemma_start_backward_sorted::<Cue>(q, i, (q[i].start - a) as i64);
                        }
                    },
                    _ => {},
                }
            },
            _ => {},
        }
    }
}

proof fn lemma_sorted_by_key_starts<T: TimedCue>(s: Seq<T::V>)
    ensures
        starts_sorted::<T>(sort_by_key(s, key_fn::<T>())),
{
    crate::sort::lemma_sort_sorted(s, key_fn::<T>());
    let r = sort_by_key(s, key_fn::<T>());
    assert forall|a: int, b: int| 0 <= a < b < r.len() implies T::view_start(r[a]) <= T::view_start(r[b]) by {
        T::lemma_key_is_start(r[a]);
        T::lemma_key_is_start(r[b]);
        assert(key_fn::<T>()(r[a]) <= key_fn::<T>()(r[b]));
    }
}

/// Changing the times of every cue leaves the cues of the active document in
/// order of start, whatever order they were in.
pub proof fn law_all_times_edit_sorts(s: AppStateView, e: AllTimesEdit)
    requires
        s.documents.wf(),
        s.active_cues() is Some,
        s.active_cues()->0 is Word || s.active_cues()->0 is Cue,
        !(e.needs_track() && s.track is None),
    ensures
        s.after_all_times_edit(e).active_cues() matches Some(c) && cues_starts_sorted(c),
{
    let d = s.track_duration();
    match s.active_cues()->0 {
        CuesView::Word(q) => {
            let m = Seq::new(q.len(), |i: int| shifted_cue::<AlignedCue>(q, i, e, d));
            lemma_sorted_by_key_starts::<AlignedCue>(m);
            crate::state::lemma_with_active_cues(s, CuesView::Word(all_shifted::<AlignedCue>(q, e, d)));
        },
        CuesView::Cue(q) => {
            let m = Seq::new(q.len(), |i: int| shifted_cue::<Cue>(q, i, e, d));
            lemma_sorted_by_key_starts::<Cue>(m);
            crate::state::lemma_with_active_cues(s, CuesView::Cue(all_shifted::<Cue>(q, e, d)));
        },
        _ => {},
    }
}

// ---------------------------------------------------------------------------
// The selected cues.

impl AppStateView {
    /// Whether an edit of the selected cues' times goes through: it needs an
    /// active document, a track, and the select or edit mode. It changes
    /// nothing.
    pub open spec fn selected_time_edit_result(self) -> Result<(), Seq<char>> {
        if self.active_cues() is None || self.track is None {
            Err("No subtitle document found"@)
        } else if self.mode is Normal {
            Err("Cannot be in normal mode"@)
        } else {
            Ok(())
        }
    }
}

impl App {
    fn check_selected_time_edit(&self) -> (r: Result<(), String>)
        requires
            self.wf(),
        ensures
            result_view(r) == self.state.deep_view().selected_time_edit_result(),
    {
        if self.state.subtitle_documents.active_index().is_none() || self.state.track.is_none() {
            return Err(String::from_str("No subtitle document found"));
        }
        match &self.state.app_mode {
            AppMode::Normal => Err(String::from_str("Cannot be in normal mode")),
            _ => Ok(()),
        }
    }

    /// Checks that the selected cues' starts can be moved later; changes
    /// nothing.
    pub fn increase_selected_cue_start_times(&mut self, forwards_cue_increment: i64) -> (r: Result<(), String>)
        requires
            old(self).wf(),
        ensures
            result_view(r) == old(self).state.deep_view().selected_time_edit_result(),
            *final(self) == *old(self),
    {
        self.check_selected_time_edit()
    }

    /// Checks that the selected cues' ends can be moved later; changes
    /// nothing.
    pub fn increase_selected_cue_end_times(&mut self, forwards_cue_increment: i64) -> (r: Result<(), String>)
        requires
            old(self).wf(),
        ensures
            result_view(r) == old(self).state.deep_view().selected_time_edit_result(),
            *final(self) == *old(self),
    {
        self.check_selected_time_edit()
    }

    /// Checks that the selected cues' starts can be moved earlier; changes
    /// nothing.
    pub fn decrease_selected_cue_start_times(&mut self, backwards_cue_increment: i64) -> (r: Result<(), String>)
        requires
            old(self).wf(),
        ensures
            result_view(r) == old(self).state.deep_view().selected_time_edit_result(),
            *final(self) == *old(self),
    {
        self.check_selected_time_edit()
    }

    /// Checks that the selected cues' ends can be moved earlier; changes
    /// nothing.
    pub fn decrease_selected_cue_end_times(&mut self, backwards_cue_increment: i64) -> (r: Result<(), String>)
        requires
            old(self).wf(),
        ensures
            result_view(r) == old(self).state.deep_view().selected_time_edit_result(),
            *final(self) == *old(self),
    {
        self.check_selected_time_edit()
    }
}

// ---------------------------------------------------------------------------
// Taking a change of times back.

/// One cue given new times and moved from `c.old_index` to `c.new_index`.
pub(crate) proof fn lemma_single_times_set<T: TimedCue>(q: Seq<T::V>, c: CueTimeChange)
    requires
        c.old_index < q.len(),
        c.new_index < q.len(),
    ensures
        times_set::<T>(q, seq![c]) == q.remove(c.old_index as int).insert(
            c.new_index as int,
            T::view_with_times(q[c.old_index as int], c.new_start, c.new_end),
        ),
{
    let ch = seq![c];
    crate::sort::lemma_sort_of_sorted(ch, key_fn::<CueTimeChange>());
    assert(ch.drop_last() =~= Seq::<CueTimeChange>::empty());
    let x = T::view_with_times(q[c.old_index as int], c.new_start, c.new_end);
    assert(ch.last() == c);
    assert(take_out_each::<T>(q, Seq::<CueTimeChange>::empty()) == (q, Seq::<(usize, T::V)>::empty()));
    assert(take_out_each::<T>(q, ch.drop_last()) == (q, Seq::<(usize, T::V)>::empty()));
    let taken = take_out_each::<T>(q, ch).1;
    assert(taken == Seq::<(usize, T::V)>::empty().push((c.new_index, x)));
    assert(taken =~= seq![(c.new_index, x)]);
    assert(changes_by_old_desc(ch) == ch);
    assert(take_out_each::<T>(q, ch).0 == q.remove(c.old_index as int));
    crate::sort::lemma_sort_of_sorted(taken, key_fn::<PlacedCue<T>>());
    assert(taken.drop_last() =~= Seq::<(usize, T::V)>::empty());
    assert(taken.last() == (c.new_index, x));
    let rest = q.remove(c.old_index as int);
    assert(put_in_each(rest, Seq::<(usize, T::V)>::empty()) == rest);
    assert(put_in_each(rest, taken) == rest.insert(c.new_index as int, x));
}

/// A change of one cue's times, then the change taken back, gives the
/// cues back, where the change starts from where and how the cue is.
pub(crate) proof fn lemma_single_change_undone<T: TimedCue>(q: Seq<T::V>, c: CueTimeChange)
    requires
        c.old_index < q.len(),
        c.new_index < q.len(),
        T::view_start(q[c.old_index as int]) == c.old_start,
        T::view_end(q[c.old_index as int]) == c.old_end,
    ensures
        times_set::<T>(times_set::<T>(q, seq![c]), seq![c.spec_inverse()]) == q,
{
    let o = c.old_index as int;
    let n = c.new_index as int;
    let x = T::view_with_times(q[o], c.new_start, c.new_end);
    lemma_single_times_set::<T>(q, c);
    let t = q.remove(o).insert(n, x);
    lemma_single_times_set::<T>(t, c.spec_inverse());
    T::lemma_with_times(q[o], c.old_start, c.old_end);
    assert(T::view_with_times(x, c.old_start, c.old_end) == q[o]);
    assert(t.remove(n) =~= q.remove(o));
    assert(q.remove(o).insert(o, q[o]) =~= q);
}

/// Changing one cue's times and then taking the change back (as undoing a
/// recorded edit of the current cue's times does) gives the cues back,
/// where the change starts from where and how the cue is and moves it to a
/// place within the cues.
pub proof fn law_time_change_then_inverse(s: AppStateView, c: CueTimeChange)
    requires
        s.documents.wf(),
        s.active_cues() matches Some(cv) && match cv {
            CuesView::Word(q) => c.old_index < q.len() && c.new_index < q.len()
                && q[c.old_index as int].start == c.old_start && q[c.old_index as int].end == c.old_end,
            CuesView::Cue(q) => c.old_index < q.len() && c.new_index < q.len()
                && q[c.old_index as int].start == c.old_start && q[c.old_index as int].end == c.old_end,
            _ => true,
        },
    ensures
        s.after_set_times(seq![c]).after_set_times(inverse_changes(seq![c])).active_cues() == s.active_cues(),
{
    assert(inverse_changes(seq![c]) =~= seq![c.spec_inverse()]);
    let n = s.normal_without_track();
    let cv = n.active_cues()->0;
    let c2 = times_set_in(cv, seq![c]);
    crate::state::lemma_with_active_cues(n, c2);
    let t = n.with_active_cues(c2);
    assert(t == s.after_set_times(seq![c]));
    let tn = t.normal_without_track();
    let c3 = times_set_in(c2, seq![c.spec_inverse()]);
    crate::state::lemma_with_active_cues(tn, c3);
    assert(tn.with_active_cues(c3) == t.after_set_times(seq![c.spec_inverse()]));
    match cv {
        CuesView::Word(q) => lemma_single_change_undone::<AlignedCue>(q, c),
        CuesView::Cue(q) => lemma_single_change_undone::<Cue>(q, c),
        _ => {},
    }
}

// ---------------------------------------------------------------------------
// Moving every start later and back.

/// Every cue can start `d` later within the track, not after its end, and
/// starts at 0 or later.
pub open spec fn starts_movable<T: TimedCue>(s: Seq<T::V>, d: i64, duration: i64) -> bool {
    forall|i: int| 0 <= i < s.len() ==> {
        &&& 0 <= T::view_start(#[trigger] s[i])
        &&& T::view_start(s[i]) + d <= duration
        &&& T::view_start(s[i]) + d <= T::view_end(s[i])
    }
}

/// `starts_movable` for the level of `c` (cues without times always are).
pub open spec fn cues_starts_movable(c: CuesView, d: i64, duration: i64) -> bool {
    match c {
        CuesView::Word(s) => starts_movable::<AlignedCue>(s, d, duration),
        CuesView::Cue(s) => starts_movable::<Cue>(s, d, duration),
        _ => true,
    }
}

proof fn lemma_later_then_earlier<T: TimedCue>(q: Seq<T::V>, d: i64, duration: i64)
    requires
        d >= 0,
        starts_sorted::<T>(q),
        starts_movable::<T>(q, d, duration),
    ensures
        all_shifted::<T>(all_shifted::<T>(q, AllTimesEdit::LaterStarts(d), duration), AllTimesEdit::EarlierStarts(d), duration) == q,
{
    let key = key_fn::<T>();
    let q1 = Seq::new(q.len(), |i: int| shifted_cue::<T>(q, i, AllTimesEdit::LaterStarts(d), duration));
    assert forall|i: int| 0 <= i < q.len() implies #[trigger] q1[i] == with_start::<T>(q[i], (T::view_start(q[i]) + d) as i64)
        && T::view_start(q1[i]) == T::view_start(q[i]) + d by {
        T::lemma_with_times(q[i], (T::view_start(q[i]) + d) as i64, T::view_end(q[i]));
    }
    assert(crate::sort::sorted_by(q1, key)) by {
        assert forall|a: int, b: int| 0 <= a < b < q1.len() implies key(q1[a]) <= key(q1[b]) by {
            T::lemma_key_is_start(q1[a]);
            T::lemma_key_is_start(q1[b]);
        }
    }
    crate::sort::lemma_sort_of_sorted(q1, key);
    let q2 = Seq::new(q1.len(), |i: int| shifted_cue::<T>(q1, i, AllTimesEdit::EarlierStarts(d), duration));
    assert forall|i: int| 0 <= i < q.len() implies #[trigger] q2[i] == q[i] by {
        let v = q[i];
        let a = (T::view_start(v) + d) as i64;
        T::lemma_with_times(v, a, T::view_end(v));
        T::lemma_with_times(v, T::view_start(v), T::view_end(v));
        assert(q1[i] == T::view_with_times(v, a, T::view_end(v)));
        assert(T::view_end(q1[i]) == T::view_end(v));
        assert(q2[i] == T::view_with_times(T::view_with_times(v, a, T::view_end(v)), T::view_start(v), T::view_end(v)));
    }
    assert(q2 =~= q);
    assert(crate::sort::sorted_by(q, key)) by {
        assert forall|a: int, b: int| 0 <= a < b < q.len() implies key(q[a]) <= key(q[b]) by {
            T::lemma_key_is_start(q[a]);
            T::lemma_key_is_start(q[b]);
        }
    }
    crate::sort::lemma_sort_of_sorted(q, key);
}

/// Moving every cue's start later by `d` and then earlier by `d` gives the
/// cues back, where they are in order of start, start at 0 or later, and
/// can each start `d` later within the track and not after their end.
pub proof fn law_later_then_earlier_starts(s: AppStateView, d: i64)
    requires
        s.documents.wf(),
        s.track is Some,
        d >= 0,
        s.active_cues() matches Some(c) && cues_starts_sorted(c) && cues_starts_movable(c, d, s.track_duration()),
    ensures
        s.after_all_times_edit(AllTimesEdit::LaterStarts(d)).after_all_times_edit(AllTimesEdit::EarlierStarts(d)).active_cues()
            == s.active_cues(),
{
    let c = s.active_cues()->0;
    let dur = s.track_duration();
    match c {
        CuesView::Word(q) => {
            let c2 = CuesView::Word(all_shifted::<AlignedCue>(q, AllTimesEdit::LaterStarts(d), dur));
            crate::state::lemma_with_active_cues(s, c2);
            let t = s.with_active_cues(c2);
            assert(t.track_duration() == dur);
            let c3 = CuesView::Word(all_shifted::<AlignedCue>(
                all_shifted::<AlignedCue>(q, AllTimesEdit::LaterStarts(d), dur), AllTimesEdit::EarlierStarts(d), dur));
            crate::state::lemma_with_active_cues(t, c3);
            lemma_later_then_earlier::<AlignedCue>(q, d, dur);
        },
        CuesView::Cue(q) => {
            let c2 = CuesView::Cue(all_shifted::<Cue>(q, AllTimesEdit::LaterStarts(d), dur));
            crate::state::lemma_with_active_cues(s, c2);
            let t = s.with_active_cues(c2);
            assert(t.track_duration() == dur);
            let c3 = CuesView::Cue(all_shifted::<Cue>(
                all_shifted::<Cue>(q, AllTimesEdit::LaterStarts(d), dur), AllTimesEdit::EarlierStarts(d), dur));
            crate::state::lemma_with_active_cues(t, c3);
            lemma_later_then_earlier::<Cue>(q, d, dur);
        },
        _ => {},
    }
}

// ---------------------------------------------------------------------------
// What an edit of the current cue's times does to the cues.

/// An edit of the times of cue `i` takes it out and puts it back at some
/// place `j`, with new times and nothing else changed.
pub(crate) proof fn lemma_current_edit_shape<T: TimedCue>(s: Seq<T::V>, i: int, e: CurrentTimeEdit, duration: i64)
    requires
        0 <= i < s.len(),
    ensures
        0 <= current_edit_on::<T>(s, i, e, duration).1 < s.len(),
        current_edit_on::<T>(s, i, e, duration).0 == s.remove(i).insert(
            current_edit_on::<T>(s, i, e, duration).1,
            T::view_with_times(
                s[i],
                T::view_start(current_edit_on::<T>(s, i, e, duration).0[current_edit_on::<T>(s, i, e, duration).1]),
                T::view_end(current_edit_on::<T>(s, i, e, duration).0[current_edit_on::<T>(s, i, e, duration).1]),
            ),
        ),
{
    let x = s[i];
    let (s2, j) = current_edit_on::<T>(s, i, e, duration);
    T::lemma_with_times(x, T::view_start(x), T::view_end(x));
    assert(s.remove(i).insert(i, x) =~= s);
    match e {
        CurrentTimeEdit::SetStart(t) => {
            if t <= duration {
                lemma_start_forward_shape::<T>(s, i, t);
            } else if t >= 0 {
                lemma_start_backward_shape::<T>(s, i, t);
            }
        },
        CurrentTimeEdit::LaterStart(d) => {
            let t = T::view_start(x) + d;
            if t <= duration {
                lemma_start_forward_shape::<T>(s, i, t as i64);
            }
        },
        CurrentTimeEdit::EarlierStart(d) => {
            let t = T::view_start(x) - d;
            if t >= 0 {
                lemma_start_backward_shape::<T>(s, i, t as i64);
            }
        },
        CurrentTimeEdit::SetEnd(t) => {
            if t <= duration {
                lemma_update_shape::<T>(s, i, with_end::<T>(x, t), T::view_start(x), t);
            } else if t >= 0 {
                lemma_end_pulling_shape::<T>(s, i, t);
            }
        },
        CurrentTimeEdit::LaterEnd(d) => {
            let t = T::view_end(x) + d;
            if t <= duration {
                lemma_update_shape::<T>(s, i, with_end::<T>(x, t as i64), T::view_start(x), t as i64);
            }
        },
        CurrentTimeEdit::EarlierEnd(d) => {
            let t = T::view_end(x) - d;
            if t >= 0 {
                lemma_end_pulling_shape::<T>(s, i, t as i64);
            }
        },
    }
}

/// Replacing cue `i` by the cue with new times `a`, `b` takes it out and
/// puts it back at `i`.
proof fn lemma_update_shape<T: TimedCue>(s: Seq<T::V>, i: int, y: T::V, a: i64, b: i64)
    requires
        0 <= i < s.len(),
        y == T::view_with_times(s[i], a, b),
    ensures
        s.update(i, y) == s.remove(i).insert(i, T::view_with_times(s[i], T::view_start(s.update(i, y)[i]), T::view_end(s.update(i, y)[i]))),
{
    T::lemma_with_times(s[i], a, b);
    assert(s.update(i, y) =~= s.remove(i).insert(i, y));
}

proof fn lemma_end_pulling_shape<T: TimedCue>(s: Seq<T::V>, i: int, t: i64)
    requires
        0 <= i < s.len(),
    ensures
        s.update(i, end_pulling_start::<T>(s[i], t)) == s.remove(i).insert(i, T::view_with_times(
            s[i],
            T::view_start(s.update(i, end_pulling_start::<T>(s[i], t))[i]),
            T::view_end(s.update(i, end_pulling_start::<T>(s[i], t))[i]),
        )),
{
    let x = s[i];
    if t < T::view_start(x) {
        lemma_update_shape::<T>(s, i, T::view_with_times(x, t, t), t, t);
    } else {
        lemma_update_shape::<T>(s, i, with_end::<T>(x, t), T::view_start(x), t);
    }
}

proof fn lemma_start_backward_shape<T: TimedCue>(s: Seq<T::V>, i: int, t: i64)
    requires
        0 <= i < s.len(),
    ensures
        0 <= start_backward::<T>(s, i, t).1 <= i,
        start_backward::<T>(s, i, t).0 == s.remove(i).insert(start_backward::<T>(s, i, t).1, T::view_with_times(
            s[i],
            T::view_start(start_backward::<T>(s, i, t).0[start_backward::<T>(s, i, t).1]),
            T::view_end(start_backward::<T>(s, i, t).0[start_backward::<T>(s, i, t).1]),
        )),
{
    lemma_backward_stop::<T>(s, i, t);
    let j = backward_stop::<T>(s, i, t);
    let w = with_start::<T>(s[i], t);
    T::lemma_with_times(s[i], t, T::view_end(s[i]));
    assert(s.remove(i).insert(j, w)[j] == w);
}

proof fn lemma_start_forward_shape<T: TimedCue>(s: Seq<T::V>, i: int, t: i64)
    requires
        0 <= i < s.len(),
    ensures
        i <= start_forward::<T>(s, i, t).1 < s.len(),
        start_forward::<T>(s, i, t).0 == s.remove(i).insert(start_forward::<T>(s, i, t).1, T::view_with_times(
            s[i],
            T::view_start(start_forward::<T>(s, i, t).0[start_forward::<T>(s, i, t).1]),
            T::view_end(start_forward::<T>(s, i, t).0[start_forward::<T>(s, i, t).1]),
        )),
{
    lemma_forward_stop::<T>(s, i, t);
    let j = forward_stop::<T>(s, i, t);
    let x = s[i];
    let w = with_start::<T>(x, t);
    T::lemma_with_times(x, t, T::view_end(x));
    let r = s.remove(i).insert(j, w);
    assert(r[j] == w);
    if T::view_start(w) > T::view_end(w) {
        match first_start_after::<T>(r, j + 1, T::view_start(w)) {
            Some(en) => {
                let z = with_end::<T>(w, en);
                T::lemma_with_times(x, t, en);
                assert(z == T::view_with_times(x, t, en));
                assert(r.update(j, z) =~= s.remove(i).insert(j, z));
                assert(r.update(j, z)[j] == z);
            },
            None => {},
        }
    }
}

// ---------------------------------------------------------------------------
// Taking cues out in decreasing order of place.

/// Places in decreasing order, each below `n`: the one at `a` is below `n`
/// less `a`.
pub(crate) proof fn lemma_desc_room(n: int, d: Seq<CueTimeChange>)
    requires
        forall|a: int, b: int| 0 <= a < b < d.len() ==> d[a].old_index > d[b].old_index,
        forall|a: int| 0 <= a < d.len() ==> d[a].old_index < n,
    ensures
        forall|a: int| 0 <= a < d.len() ==> (#[trigger] d[a]).old_index < n - a,
    decreases d.len(),
{
    if d.len() > 0 {
        let u = d.drop_last();
        assert forall|a: int, b: int| 0 <= a < b < u.len() implies u[a].old_index > u[b].old_index by {
            assert(u[a] == d[a] && u[b] == d[b]);
        }
        assert forall|a: int| 0 <= a < u.len() implies u[a].old_index < n by {
            assert(u[a] == d[a]);
        }
        lemma_desc_room(n, u);
        assert forall|a: int| 0 <= a < d.len() implies (#[trigger] d[a]).old_index < n - a by {
            if a < u.len() {
                assert(u[a] == d[a]);
            } else if a > 0 {
                assert(u[a - 1] == d[a - 1]);
                assert(d[a - 1].old_index < n - (a - 1));
            }
        }
    }
}

/// Taking cues out at places in decreasing order takes out, each time, the
/// cue that stood there, and leaves the cues before the last place as they
/// were.
pub(crate) proof fn lemma_take_out_desc<T: TimedCue>(s: Seq<T::V>, d: Seq<CueTimeChange>)
    requires
        forall|a: int, b: int| 0 <= a < b < d.len() ==> d[a].old_index > d[b].old_index,
        forall|a: int| 0 <= a < d.len() ==> (#[trigger] d[a]).old_index < s.len() - a,
    ensures
        take_out_each::<T>(s, d).0.len() == s.len() - d.len(),
        take_out_each::<T>(s, d).1.len() == d.len(),
        forall|a: int| 0 <= a < d.len() ==> #[trigger] take_out_each::<T>(s, d).1[a] == (
            d[a].new_index,
            T::view_with_times(s[d[a].old_index as int], d[a].new_start, d[a].new_end),
        ),
        d.len() > 0 ==> forall|p: int| 0 <= p < d[d.len() - 1].old_index ==> #[trigger] take_out_each::<T>(s, d).0[p] == s[p],
    decreases d.len(),
{
    if d.len() > 0 {
        let u = d.drop_last();
        assert forall|a: int, b: int| 0 <= a < b < u.len() implies u[a].old_index > u[b].old_index by {
            assert(u[a] == d[a] && u[b] == d[b]);
        }
        assert forall|a: int| 0 <= a < u.len() implies (#[trigger] u[a]).old_index < s.len() - a by {
            assert(u[a] == d[a]);
        }
        lemma_take_out_desc::<T>(s, u);
        let (rest, taken) = take_out_each::<T>(s, u);
        let c = d.last();
        assert(c == d[d.len() - 1]);
        assert(c.old_index < s.len() - (d.len() - 1));
        if u.len() > 0 {
            assert(u[u.len() - 1] == d[d.len() - 2]);
            assert(rest[c.old_index as int] == s[c.old_index as int]);
        } else {
            assert(rest == s);
        }
        let r2 = rest.remove(c.old_index as int);
        let t2 = taken.push((c.new_index, T::view_with_times(rest[c.old_index as int], c.new_start, c.new_end)));
        assert(take_out_each::<T>(s, d) == (r2, t2));
        assert forall|a: int| 0 <= a < d.len() implies #[trigger] t2[a] == (
            d[a].new_index,
            T::view_with_times(s[d[a].old_index as int], d[a].new_start, d[a].new_end),
        ) by {
            if a < u.len() {
                assert(u[a] == d[a]);
                assert(t2[a] == taken[a]);
            }
        }
        assert forall|p: int| 0 <= p < d[d.len() - 1].old_index implies #[trigger] r2[p] == s[p] by {
            assert(r2[p] == rest[p]);
            if u.len() > 0 {
                assert(p < u[u.len() - 1].old_index);
            }
        }
    }
}

/// Putting in, one by one, each cue of `q` at its own place gives `q`.
pub(crate) proof fn lemma_put_in_own_places<A>(q: Seq<A>, items: Seq<(usize, A)>)
    requires
        items.len() == q.len(),
        q.len() <= usize::MAX,
        forall|m: int| 0 <= m < items.len() ==> #[trigger] items[m] == (m as usize, q[m]),
    ensures
        put_in_each(Seq::<A>::empty(), items) == q,
    decreases items.len(),
{
    if items.len() > 0 {
        let u = items.drop_last();
        let qu = q.drop_last();
        assert forall|m: int| 0 <= m < u.len() implies #[trigger] u[m] == (m as usize, qu[m]) by {
            assert(u[m] == items[m]);
        }
        lemma_put_in_own_places(qu, u);
        assert(items.last() == items[items.len() - 1]);
        assert(qu.insert(qu.len() as int, q.last()) =~= q);
    }
}

/// A cue changed by an edit of every cue's times keeps all but its times.
pub(crate) proof fn lemma_shifted_form<T: TimedCue>(s: Seq<T::V>, i: int, e: AllTimesEdit, duration: i64)
    requires
        0 <= i < s.len(),
    ensures
        shifted_cue::<T>(s, i, e, duration) == T::view_with_times(
            s[i],
            T::view_start(shifted_cue::<T>(s, i, e, duration)),
            T::view_end(shifted_cue::<T>(s, i, e, duration)),
        ),
{
    let x = s[i];
    let r = shifted_cue::<T>(s, i, e, duration);
    T::lemma_with_times(x, T::view_start(x), T::view_end(x));
    match e {
        AllTimesEdit::LaterStarts(d) => {
            let t = T::view_start(x) + d;
            T::lemma_with_times(x, t as i64, T::view_end(x));
            let y = if t <= duration { with_start::<T>(x, t as i64) } else { x };
            assert(y == T::view_with_times(x, T::view_start(y), T::view_end(y)));
            if T::view_start(y) > T::view_end(y) {
                match first_start_after::<T>(s, i + 1, T::view_start(y)) {
                    Some(n) => {
                        T::lemma_with_times(x, T::view_start(y), n);
                        assert(r == T::view_with_times(x, T::view_start(y), n));
                    },
                    None => {},
                }
            }
        },
        AllTimesEdit::LaterEnds(d) => {
            let t = T::view_end(x) + d;
            T::lemma_with_times(x, T::view_start(x), t as i64);
        },
        AllTimesEdit::EarlierStarts(d) => {
            let t = T::view_start(x) - d;
            T::lemma_with_times(x, t as i64, T::view_end(x));
        },
        AllTimesEdit::EarlierEnds(d) => {
            let t = T::view_end(x) - d;
            T::lemma_with_times(x, t as i64, t as i64);
            T::lemma_with_times(x, T::view_start(x), t as i64);
        },
    }
}

// ---------------------------------------------------------------------------
// What giving cues new times and places does, directly.

/// Putting in, one by one, cues at increasing places, each within what the
/// earlier ones made: each stands at its place, and every cue is one of
/// those put in or of `s`.
proof fn lemma_put_in_places<A>(s: Seq<A>, items: Seq<(usize, A)>)
    requires
        forall|i: int, j: int| 0 <= i < j < items.len() ==> items[i].0 < items[j].0,
        forall|j: int| 0 <= j < items.len() ==> (#[trigger] items[j]).0 <= s.len() + j,
    ensures
        put_in_each(s, items).len() == s.len() + items.len(),
        forall|j: int| 0 <= j < items.len() ==> put_in_each(s, items)[(#[trigger] items[j]).0 as int] == items[j].1,
        forall|p: int| 0 <= p < put_in_each(s, items).len() ==> s.contains(#[trigger] put_in_each(s, items)[p])
            || exists|j: int| 0 <= j < items.len() && put_in_each(s, items)[p] == (#[trigger] items[j]).1,
    decreases items.len(),
{
    if items.len() > 0 {
        let u = items.drop_last();
        assert forall|i: int, j: int| 0 <= i < j < u.len() implies u[i].0 < u[j].0 by {
            assert(u[i] == items[i] && u[j] == items[j]);
        }
        assert forall|j: int| 0 <= j < u.len() implies (#[trigger] u[j]).0 <= s.len() + j by {
            assert(u[j] == items[j]);
        }
        lemma_put_in_places(s, u);
        let prev = put_in_each(s, u);
        let x = items.last();
        assert(x == items[items.len() - 1]);
        let r = prev.insert(x.0 as int, x.1);
        assert(r == put_in_each(s, items));
        assert forall|j: int| 0 <= j < items.len() implies r[(#[trigger] items[j]).0 as int] == items[j].1 by {
            if j < u.len() {
                assert(u[j] == items[j]);
                assert(items[j].0 < x.0);
            }
        }
        assert forall|p: int| 0 <= p < r.len() implies s.contains(#[trigger] r[p])
            || exists|j: int| 0 <= j < items.len() && r[p] == (#[trigger] items[j]).1 by {
            if p == x.0 {
                assert(r[p] == items[items.len() - 1].1);
            } else {
                let q = if p < x.0 { p } else { p - 1 };
                assert(r[p] == prev[q]);
                if !s.contains(prev[q]) {
                    let j = choose|j: int| 0 <= j < u.len() && prev[q] == (#[trigger] u[j]).1;
                    assert(u[j] == items[j]);
                }
            }
        }
    }
}

/// What is left after taking cues out holds only cues of `s`.
proof fn lemma_take_out_rest<T: TimedCue>(s: Seq<T::V>, d: Seq<CueTimeChange>)
    requires
        forall|a: int| 0 <= a < d.len() ==> (#[trigger] d[a]).old_index < s.len() - a,
    ensures
        forall|p: int| 0 <= p < take_out_each::<T>(s, d).0.len() ==> s.contains(#[trigger] take_out_each::<T>(s, d).0[p]),
    decreases d.len(),
{
    if d.len() > 0 {
        let u = d.drop_last();
        assert forall|a: int| 0 <= a < u.len() implies (#[trigger] u[a]).old_index < s.len() - a by {
            assert(u[a] == d[a]);
        }
        lemma_take_out_rest::<T>(s, u);
        lemma_take_out_len::<T>(s, u);
        let rest = take_out_each::<T>(s, u).0;
        let c = d.last();
        assert(c == d[d.len() - 1]);
        let r = rest.remove(c.old_index as int);
        assert forall|p: int| 0 <= p < r.len() implies s.contains(#[trigger] r[p]) by {
            if p < c.old_index {
                assert(r[p] == rest[p]);
            } else {
                assert(r[p] == rest[p + 1]);
            }
        }
    }
}

/// Changes from distinct places to distinct places within the cues: the
/// number of cues is kept, each changed cue stands at its new place with
/// its new times, and every cue is a cue of `s`, perhaps with new times.
pub proof fn lemma_times_set_places<T: TimedCue>(s: Seq<T::V>, ch: Seq<CueTimeChange>)
    requires
        s.len() <= usize::MAX,
        forall|i: int, j: int| 0 <= i < ch.len() && 0 <= j < ch.len() && i != j ==> ch[i].old_index != ch[j].old_index
            && ch[i].new_index != ch[j].new_index,
        forall|i: int| 0 <= i < ch.len() ==> (#[trigger] ch[i]).old_index < s.len() && ch[i].new_index < s.len(),
    ensures
        times_set::<T>(s, ch).len() == s.len(),
        forall|i: int| 0 <= i < ch.len() ==> times_set::<T>(s, ch)[(#[trigger] ch[i]).new_index as int]
            == T::view_with_times(s[ch[i].old_index as int], ch[i].new_start, ch[i].new_end),
        forall|p: int| 0 <= p < times_set::<T>(s, ch).len() ==> exists|i: int| 0 <= i < s.len()
            && #[trigger] times_set::<T>(s, ch)[p] == T::view_with_times(
                s[i],
                T::view_start(times_set::<T>(s, ch)[p]),
                T::view_end(times_set::<T>(s, ch)[p]),
            ),
{
    let n = s.len() as int;
    let dkey = key_fn::<CueTimeChange>();
    let d = changes_by_old_desc(ch);
    crate::sort::lemma_sort_sorted(ch, dkey);
    crate::sort::lemma_sort_len(ch, dkey);
    crate::sort::lemma_sort_keeps_all(ch, dkey, dkey);
    assert(crate::sort::distinct_keys(ch, dkey));
    assert forall|a: int, b: int| 0 <= a < b < d.len() implies d[a].old_index > d[b].old_index by {
        assert(dkey(d[a]) < dkey(d[b]));
    }
    assert forall|a: int| 0 <= a < d.len() implies d[a].old_index < n && exists|i: int| 0 <= i < ch.len() && #[trigger] d[a] == ch[i] by {
        assert(ch.contains(d[a]));
    }
    lemma_desc_room(n, d);
    lemma_take_out_desc::<T>(s, d);
    lemma_take_out_rest::<T>(s, d);
    let (rest, taken) = take_out_each::<T>(s, d);
    let pkey = key_fn::<PlacedCue<T>>();
    assert(crate::sort::distinct_keys(taken, pkey)) by {
        assert forall|a: int, b: int| 0 <= a < taken.len() && 0 <= b < taken.len() && a != b implies pkey(taken[a]) != pkey(taken[b]) by {
            let i = choose|i: int| 0 <= i < ch.len() && d[a] == ch[i];
            let j = choose|j: int| 0 <= j < ch.len() && d[b] == ch[j];
            assert(d[a].old_index != d[b].old_index) by {
                if a < b {
                    assert(d[a].old_index > d[b].old_index);
                } else {
                    assert(d[b].old_index > d[a].old_index);
                }
            }
        }
    }
    let p = sort_by_key(taken, pkey);
    crate::sort::lemma_sort_sorted(taken, pkey);
    crate::sort::lemma_sort_len(taken, pkey);
    crate::sort::lemma_sort_keeps_all(taken, pkey, pkey);
    let idx = p.map_values(|x: (usize, T::V)| x.0);
    assert forall|a: int, b: int| 0 <= a < b < idx.len() implies idx[a] < idx[b] by {
        assert(pkey(p[a]) < pkey(p[b]));
    }
    assert forall|a: int| 0 <= a < idx.len() implies idx[a] < n by {
        assert(taken.contains(p[a]));
        let w = choose|w: int| 0 <= w < taken.len() && taken[w] == p[a];
        let i = choose|i: int| 0 <= i < ch.len() && d[w] == ch[i];
    }
    crate::app::history::lemma_increasing_room(n, idx);
    assert forall|i: int, j: int| 0 <= i < j < p.len() implies p[i].0 < p[j].0 by {
        assert(idx[i] == p[i].0 && idx[j] == p[j].0);
    }
    assert forall|j: int| 0 <= j < p.len() implies (#[trigger] p[j]).0 <= rest.len() + j by {
        assert(idx[j] == p[j].0);
    }
    lemma_put_in_places(rest, p);
    let r = put_in_each(rest, p);
    assert(r == times_set::<T>(s, ch));
    assert forall|i: int| 0 <= i < ch.len() implies r[(#[trigger] ch[i]).new_index as int]
        == T::view_with_times(s[ch[i].old_index as int], ch[i].new_start, ch[i].new_end) by {
        assert(d.contains(ch[i]));
        let a = choose|a: int| 0 <= a < d.len() && d[a] == ch[i];
        assert(p.contains(taken[a]));
        let j = choose|j: int| 0 <= j < p.len() && p[j] == taken[a];
        assert(r[p[j].0 as int] == p[j].1);
    }
    assert forall|q: int| 0 <= q < r.len() implies exists|i: int| 0 <= i < s.len()
        && #[trigger] r[q] == T::view_with_times(s[i], T::view_start(r[q]), T::view_end(r[q])) by {
        if rest.contains(r[q]) {
            let w = choose|w: int| 0 <= w < rest.len() && rest[w] == r[q];
            assert(s.contains(rest[w]));
            let i = choose|i: int| 0 <= i < s.len() && s[i] == rest[w];
            T::lemma_with_times(s[i], T::view_start(s[i]), T::view_end(s[i]));
        } else {
            let j = choose|j: int| 0 <= j < p.len() && r[q] == (#[trigger] p[j]).1;
            assert(taken.contains(p[j]));
            let w = choose|w: int| 0 <= w < taken.len() && taken[w] == p[j];
            let i = d[w].old_index as int;
            T::lemma_with_times(s[i], d[w].new_start, d[w].new_end);
        }
    }
}

// ---------------------------------------------------------------------------
// What editing the current cue's times does.

/// The cue `y` is the cue `x` with other times: the same cue in all else.
pub open spec fn retimed<T: TimedCue>(x: T::V, y: T::V) -> bool {
    T::view_with_times(y, T::view_start(x), T::view_end(x)) == x
}

proof fn lemma_start_forward_start<T: TimedCue>(s: Seq<T::V>, i: int, t: i64)
    requires
        0 <= i < s.len(),
    ensures
        T::view_start(start_forward::<T>(s, i, t).0[start_forward::<T>(s, i, t).1]) == t,
{
    lemma_forward_stop::<T>(s, i, t);
    let j = forward_stop::<T>(s, i, t);
    let x = s[i];
    let w = with_start::<T>(x, t);
    T::lemma_with_times(x, t, T::view_end(x));
    let r = s.remove(i).insert(j, w);
    assert(r[j] == w);
    if T::view_start(w) > T::view_end(w) {
        match first_start_after::<T>(r, j + 1, T::view_start(w)) {
            Some(en) => {
                T::lemma_with_times(w, t, en);
                assert(r.update(j, with_end::<T>(w, en))[j] == with_end::<T>(w, en));
            },
            None => {},
        }
    }
}

/// Editing the times of the cue `i` of `s` keeps the cues but that one, which
/// keeps all but its times and stands at the returned place:
/// - setting its start to `t` (or moving it later or earlier by `d`), where the
///   edit is made (the new start at most the track's length, or not before 0),
///   makes it start there;
/// - setting its end to `t` within the track makes it end at `t`, its start
///   kept; past the track's end (and not before 0) it ends at `t` and starts
///   no later than `t`; moving the end later by `d` within the track, or
///   earlier by `d` to no earlier than its start, moves only its end by `d`;
///   an end edit leaves the cue in its place and the other cues as they are.
pub proof fn law_current_time_edit<T: TimedCue>(s: Seq<T::V>, i: int, e: CurrentTimeEdit, duration: i64)
    requires
        0 <= i < s.len(),
        edit_in_range::<T>(s[i], e),
    ensures
        ({
            let (q, j) = current_edit_on::<T>(s, i, e, duration);
            let x = s[i];
            &&& q.len() == s.len()
            &&& 0 <= j < s.len()
            &&& retimed::<T>(x, q[j])
            &&& T::view_id(q[j]) == T::view_id(x)
            &&& match e {
                CurrentTimeEdit::SetStart(t) => (t <= duration || t >= 0) ==> T::view_start(q[j]) == t,
                CurrentTimeEdit::LaterStart(d) => T::view_start(x) + d <= duration ==> T::view_start(q[j]) == T::view_start(x) + d,
                CurrentTimeEdit::EarlierStart(d) => T::view_start(x) - d >= 0 ==> T::view_start(q[j]) == T::view_start(x) - d,
                CurrentTimeEdit::SetEnd(t) => {
                    &&& j == i
                    &&& forall|k: int| 0 <= k < s.len() && k != i ==> q[k] == #[trigger] s[k]
                    &&& t <= duration ==> T::view_end(q[i]) == t && T::view_start(q[i]) == T::view_start(x)
                    &&& (t > duration && t >= 0) ==> T::view_end(q[i]) == t && T::view_start(q[i]) <= t
                },
                CurrentTimeEdit::LaterEnd(d) => {
                    &&& j == i
                    &&& forall|k: int| 0 <= k < s.len() && k != i ==> q[k] == #[trigger] s[k]
                    &&& T::view_end(x) + d <= duration ==> T::view_end(q[i]) == T::view_end(x) + d
                        && T::view_start(q[i]) == T::view_start(x)
                },
                CurrentTimeEdit::EarlierEnd(d) => {
                    &&& j == i
                    &&& forall|k: int| 0 <= k < s.len() && k != i ==> q[k] == #[trigger] s[k]
                    &&& (T::view_end(x) - d >= 0 && T::view_end(x) - d >= T::view_start(x)) ==> T::view_end(q[i]) == T::view_end(x) - d
                        && T::view_start(q[i]) == T::view_start(x)
                },
            }
        }),
{
    let (q, j) = current_edit_on::<T>(s, i, e, duration);
    let x = s[i];
    lemma_current_edit_shape::<T>(s, i, e, duration);
    assert(q[j] == T::view_with_times(x, T::view_start(q[j]), T::view_end(q[j])));
    T::lemma_with_times(x, T::view_start(q[j]), T::view_end(q[j]));
    T::lemma_with_times(x, T::view_start(x), T::view_end(x));
    match e {
        CurrentTimeEdit::SetStart(t) => {
            if t <= duration {
                lemma_start_forward_start::<T>(s, i, t);
            } else if t >= 0 {
                lemma_backward_stop::<T>(s, i, t);
                T::lemma_with_times(x, t, T::view_end(x));
                assert(s.remove(i).insert(backward_stop::<T>(s, i, t), with_start::<T>(x, t))[backward_stop::<T>(s, i, t)] == with_start::<T>(x, t));
            }
        },
        CurrentTimeEdit::LaterStart(d) => {
            if T::view_start(x) + d <= duration {
                lemma_start_forward_start::<T>(s, i, (T::view_start(x) + d) as i64);
            }
        },
        CurrentTimeEdit::EarlierStart(d) => {
            let t = (T::view_start(x) - d) as i64;
            if T::view_start(x) - d >= 0 {
                lemma_backward_stop::<T>(s, i, t);
                T::lemma_with_times(x, t, T::view_end(x));
                assert(s.remove(i).insert(backward_stop::<T>(s, i, t), with_start::<T>(x, t))[backward_stop::<T>(s, i, t)] == with_start::<T>(x, t));
            }
        },
        CurrentTimeEdit::SetEnd(t) => {
            T::lemma_with_times(x, T::view_start(x), t);
            T::lemma_with_times(x, t, t);
        },
        CurrentTimeEdit::LaterEnd(d) => {
            T::lemma_with_times(x, T::view_start(x), (T::view_end(x) + d) as i64);
        },
        CurrentTimeEdit::EarlierEnd(d) => {
            let t = (T::view_end(x) - d) as i64;
            T::lemma_with_times(x, T::view_start(x), t);
            T::lemma_with_times(x, t, t);
        },
    }
}

/// The cues `q2` hold the cue `i` of `q` at `j`, the same cue with other
/// times: with a start set to `t` within the track starting at `t`; with an
/// end set to `t` within the track ending at `t` in its place, its start and
/// the other cues kept.
pub open spec fn edits_current<T: TimedCue>(q: Seq<T::V>, q2: Seq<T::V>, i: int, j: int, e: CurrentTimeEdit, duration: i64) -> bool {
    &&& q2.len() == q.len()
    &&& 0 <= j < q.len()
    &&& T::view_id(q2[j]) == T::view_id(q[i])
    &&& retimed::<T>(q[i], q2[j])
    &&& match e {
        CurrentTimeEdit::SetStart(t) => 0 <= t <= duration ==> T::view_start(q2[j]) == t,
        CurrentTimeEdit::SetEnd(t) => 0 <= t <= duration ==> {
            &&& j == i
            &&& T::view_end(q2[i]) == t
            &&& T::view_start(q2[i]) == T::view_start(q[i])
            &&& forall|k: int| 0 <= k < q.len() && k != i ==> q2[k] == #[trigger] q[k]
        },
        _ => true,
    }
}

/// Editing the current cue's times (where the edit is allowed) leaves the
/// current index on the edited cue: it keeps its identity and all but its
/// times, starts where a start within the track was set, and ends where an
/// end within the track was set, in its place. Without times nothing changes.
pub proof fn law_edit_current_times(s: AppStateView, e: CurrentTimeEdit)
    requires
        s.documents.wf(),
        s.time_edit_result(e) is Ok,
        s.can_edit_current_times(e),
        crate::app::deletion::cues_len(s.active_cues()->0) <= usize::MAX,
    ensures
        match (s.active_cues()->0, s.after_current_time_edit(e).active_cues()) {
            (CuesView::Cue(q), Some(CuesView::Cue(q2))) => edits_current::<Cue>(
                q, q2, s.current_index() as int, s.after_current_time_edit(e).current_index() as int, e, s.track_duration()),
            (CuesView::Word(q), Some(CuesView::Word(q2))) => edits_current::<AlignedCue>(
                q, q2, s.current_index() as int, s.after_current_time_edit(e).current_index() as int, e, s.track_duration()),
            (CuesView::Cue(_), _) => false,
            (CuesView::Word(_), _) => false,
            _ => s.after_current_time_edit(e) == s,
        },
{
    let i = s.current_index() as int;
    let d = s.track_duration();
    match s.active_cues()->0 {
        CuesView::Cue(q) => {
            law_current_time_edit::<Cue>(q, i, e, d);
            let (q2, j) = current_edit_on::<Cue>(q, i, e, d);
            crate::state::lemma_with_active_cues(s, CuesView::Cue(q2));
            let t = s.with_active_cues(CuesView::Cue(q2)).with_mode(mode_after_move(s.mode, j as usize, e.moves_selection()));
            assert(t == s.after_current_time_edit(e));
            assert(t.active_cues() == Some(CuesView::Cue(q2)));
            assert(t.current_index() == j as usize);
        },
        CuesView::Word(q) => {
            law_current_time_edit::<AlignedCue>(q, i, e, d);
            let (q2, j) = current_edit_on::<AlignedCue>(q, i, e, d);
            crate::state::lemma_with_active_cues(s, CuesView::Word(q2));
            let t = s.with_active_cues(CuesView::Word(q2)).with_mode(mode_after_move(s.mode, j as usize, e.moves_selection()));
            assert(t == s.after_current_time_edit(e));
            assert(t.active_cues() == Some(CuesView::Word(q2)));
            assert(t.current_index() == j as usize);
        },
        _ => {},
    }
}

/// Shifting every cue's times changes each cue only in its times: moving
/// starts later by `d` makes a cue start `d` later where that stays within
/// the track; moving ends later by `d` within the track moves the end by `d`
/// and keeps the start; moving starts earlier by `d` to no earlier than 0
/// moves the start by `d` and keeps the end; moving ends earlier by `d` to no
/// earlier than the cue's start moves the end by `d` and keeps the start.
pub proof fn law_shifted_cue<T: TimedCue>(s: Seq<T::V>, i: int, e: AllTimesEdit, duration: i64)
    requires
        0 <= i < s.len(),
        all_in_range::<T>(s, e),
    ensures
        ({
            let x = s[i];
            let y = shifted_cue::<T>(s, i, e, duration);
            &&& retimed::<T>(x, y)
            &&& T::view_id(y) == T::view_id(x)
            &&& match e {
                AllTimesEdit::LaterStarts(d) => T::view_start(x) + d <= duration ==> T::view_start(y) == T::view_start(x) + d,
                AllTimesEdit::LaterEnds(d) => T::view_end(x) + d <= duration ==> T::view_end(y) == T::view_end(x) + d
                    && T::view_start(y) == T::view_start(x),
                AllTimesEdit::EarlierStarts(d) => T::view_start(x) - d >= 0 ==> T::view_start(y) == T::view_start(x) - d
                    && T::view_end(y) == T::view_end(x),
                AllTimesEdit::EarlierEnds(d) => (T::view_end(x) - d >= 0 && T::view_end(x) - d >= T::view_start(x))
                    ==> T::view_end(y) == T::view_end(x) - d && T::view_start(y) == T::view_start(x),
            }
        }),
{
    let x = s[i];
    assert(all_in_range::<T>(s, e) ==> match e {
        AllTimesEdit::LaterStarts(d) => i64::MIN <= T::view_start(s[i]) + d <= i64::MAX,
        AllTimesEdit::LaterEnds(d) => i64::MIN <= T::view_end(s[i]) + d <= i64::MAX,
        AllTimesEdit::EarlierStarts(d) => i64::MIN <= T::view_start(s[i]) - d <= i64::MAX,
        AllTimesEdit::EarlierEnds(d) => i64::MIN <= T::view_end(s[i]) - d <= i64::MAX,
    });
    T::lemma_with_times(x, T::view_start(x), T::view_end(x));
    match e {
        AllTimesEdit::LaterStarts(d) => {
            let t = T::view_start(x) + d;
            if t <= duration {
                let y = with_start::<T>(x, t as i64);
                T::lemma_with_times(x, t as i64, T::view_end(x));
                if T::view_start(y) > T::view_end(y) {
                    match first_start_after::<T>(s, i + 1, T::view_start(y)) {
                        Some(n) => {
                            T::lemma_with_times(y, T::view_start(y), n);
                            T::lemma_with_times(x, t as i64, n);
                        },
                        None => {},
                    }
                }
            } else {
                if T::view_start(x) > T::view_end(x) {
                    match first_start_after::<T>(s, i + 1, T::view_start(x)) {
                        Some(n) => T::lemma_with_times(x, T::view_start(x), n),
                        None => {},
                    }
                }
            }
        },
        AllTimesEdit::LaterEnds(d) => {
            T::lemma_with_times(x, T::view_start(x), (T::view_end(x) + d) as i64);
        },
        AllTimesEdit::EarlierStarts(d) => {
            T::lemma_with_times(x, (T::view_start(x) - d) as i64, T::view_end(x));
        },
        AllTimesEdit::EarlierEnds(d) => {
            let t = (T::view_end(x) - d) as i64;
            T::lemma_with_times(x, T::view_start(x), t);
            T::lemma_with_times(x, t, t);
        },
    }
}

} // verus!

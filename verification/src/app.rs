//! The editor: its state, the synchroniser it follows, and the operations
//! that its key bindings start.

use vstd::prelude::*;

use crate::cues::CuesView;
use crate::mode::{AppMode, EditCueView, ModeView};
use crate::state::{AppState, AppStateView};
use crate::clock::PlaybackClock;
use crate::config::Config;
use crate::state::{PlaybackStatus, PlayerEvent, StateUpdate};
use crate::synchronizer::{AppSynchronizer, SyncEvent};

pub mod addition;
pub mod adjust;
pub mod deletion;
pub mod history;
pub mod modes;
pub mod navigation;
pub mod recorded;
pub mod timing;

verus! {

/// The editor.
pub struct App {
    pub synchronizer: AppSynchronizer,
    pub clock: PlaybackClock,
    pub state: AppState,
}

impl App {
    /// What an operation on the documents leaves alone.
    pub open spec fn keeps_engine(self, before: App) -> bool {
        self.synchronizer == before.synchronizer && self.clock == before.clock
    }

    /// The editor is consistent: no variant held twice, the active one held.
    pub open spec fn wf(self) -> bool {
        self.state.subtitle_documents.wf()
    }

    /// A new editor: following cues, the clock at the start shifted by the
    /// configured offset, no track, no documents, normal mode.
    pub fn new(config: &Config) -> (r: App)
        ensures
            r.wf(),
            r.synchronizer.mode == crate::synchronizer::SynchronizerMode::Cue,
            r.synchronizer.cue_synchronizer.active@.len() == 0,
            r.synchronizer.word_synchronizer.active@.len() == 0,
            r.clock.last_position == 0,
            r.clock.interpolated_duration == 0,
            r.clock.offset == config.clock_offset,
            r.clock.previous_playback_status is None,
            r.state.track is None,
            r.state.deep_view().documents.entries.len() == 0,
            r.state.deep_view().documents.active is None,
            r.state.app_mode is Normal,
            !r.state.quit,
    {
        App { synchronizer: AppSynchronizer::new(), clock: PlaybackClock::new(config.clock_offset), state: AppState::new() }
    }

    /// The synchroniser follows the clock's position in the active
    /// document's cues (see `AppSynchronizer::followed`; no position where
    /// it is beyond what the clock holds); its report is handed on.
    pub fn sync_to_clock(&mut self) -> (r: Option<SyncEvent>)
        requires
            old(self).wf(),
        ensures
            final(self).wf(),
            final(self).state == old(self).state,
            final(self).clock == old(self).clock,
            final(self).synchronizer.followed(
                old(self).synchronizer,
                old(self).state.deep_view().active_cues(),
                old(self).clock.position_if_fits(),
                r,
            ),
    {
        let position = self.clock.checked_position();
        match self.state.subtitle_documents.active_index() {
            Some(i) => self.synchronizer.update(Some(&self.state.subtitle_documents.documents[i].state.document.cues), position),
            None => self.synchronizer.update(None, position),
        }
    }

    /// Takes the player's report: the state follows it (see
    /// `AppState::update`) and so does the clock (see
    /// `PlaybackClock::took_event`). What the front end does next is
    /// handed back: it loads the documents of a new track, or looks for a
    /// player again, then lets the synchroniser follow the clock (see
    /// `sync_to_clock`).
    pub fn handle_player_event(&mut self, event: PlayerEvent) -> (r: StateUpdate)
        requires
            old(self).wf(),
        ensures
            final(self).wf(),
            final(self).synchronizer == old(self).synchronizer,
            final(self).clock.took_event(old(self).clock, event),
            (final(self).state.deep_view(), r) == old(self).state.deep_view().after_player_event(event),
            final(self).state.subtitle_documents == old(self).state.subtitle_documents,
    {
        self.clock.update(&event);
        self.state.update(event)
    }

    /// Takes the player's position and status, asked for at a tick,
    /// measuring the time since the player last reported (see
    /// `process_tick`). The time measured depends on when it is called, so
    /// what is stated holds for some time measured.
    pub fn handle_tick_event(&mut self, current_position: Option<i64>, playback_status: PlaybackStatus) -> (r: Result<Option<SyncEvent>, String>)
        requires
            old(self).wf(),
        ensures
            final(self).wf(),
            final(self).state == old(self).state,
            match r {
                Ok(ev) => {
                    &&& final(self).clock.previous_playback_status == Some(playback_status)
                    &&& final(self).clock.last_position == match current_position {
                        Some(p) => p,
                        None => old(self).clock.last_position,
                    }
                    &&& final(self).clock.offset == old(self).clock.offset
                    &&& final(self).clock.last_position != old(self).clock.last_position ==> final(self).clock.interpolated_duration == 0
                    &&& final(self).clock.last_position == old(self).clock.last_position ==> if old(self).clock.previous_playback_status
                        == Some(PlaybackStatus::Playing) {
                        final(self).clock.interpolated_duration >= old(self).clock.interpolated_duration
                    } else {
                        final(self).clock.interpolated_duration == old(self).clock.interpolated_duration
                    }
                    &&& final(self).synchronizer.followed(
                        old(self).synchronizer,
                        old(self).state.deep_view().active_cues(),
                        final(self).clock.position_if_fits(),
                        ev,
                    )
                },
                Err(_) => final(self).clock == old(self).clock && final(self).synchronizer == old(self).synchronizer,
            },
            exists|elapsed: u128| #[trigger] final(self).ticked(*old(self), elapsed, current_position, playback_status, r),
    {
        let elapsed = self.clock.elapsed_since_sync();
        let r = self.process_tick(elapsed, current_position, playback_status);
        if r.is_ok() {
            self.clock.restart_count();
        }
        proof {
            assert(self.ticked(*old(self), elapsed, current_position, playback_status, r));
        }
        r
    }

    /// `self` is `before` after the player's position and status, asked for
    /// at a tick `elapsed` microseconds after its last report: the clock
    /// takes them (see `PlaybackClock::synced`; without a position the
    /// player is taken to be where it last was) and the synchroniser then
    /// follows the clock (see `AppSynchronizer::followed`), or, where the
    /// clock refuses them, nothing else changes.
    pub open spec fn ticked(
        self,
        before: App,
        elapsed: u128,
        current_position: Option<i64>,
        playback_status: PlaybackStatus,
        r: Result<Option<SyncEvent>, String>,
    ) -> bool {
        let p = match current_position {
            Some(p) => p,
            None => before.clock.last_position,
        };
        &&& self.state == before.state
        &&& self.clock.synced(before.clock, elapsed, p, playback_status, r is Ok)
        &&& match r {
            Ok(ev) => self.synchronizer.followed(
                before.synchronizer,
                before.state.deep_view().active_cues(),
                self.clock.position_if_fits(),
                ev,
            ),
            Err(_) => self.synchronizer == before.synchronizer,
        }
    }

    /// Takes the player's position and status, asked for at a tick
    /// `elapsed` microseconds after its last report (see `ticked`).
    pub fn process_tick(&mut self, elapsed: u128, current_position: Option<i64>, playback_status: PlaybackStatus) -> (r: Result<Option<SyncEvent>, String>)
        requires
            old(self).wf(),
        ensures
            final(self).wf(),
            final(self).ticked(*old(self), elapsed, current_position, playback_status, r),
            final(self).clock.last_sync == old(self).clock.last_sync,
            r is Err ==> *final(self) == *old(self),
    {
        let position = match current_position {
            Some(p) => p,
            None => self.clock.last_position,
        };
        match self.clock.sync_elapsed(elapsed, position, playback_status) {
            Ok(()) => {},
            Err(e) => return Err(e),
        }
        Ok(self.sync_to_clock())
    }

    /// The cue of the first active index (the first cue when none is
    /// active), where there is an active document.
    pub fn get_first_active_cue(&self) -> (r: Option<usize>)
        requires
            self.wf(),
        ensures
            r == self.spec_first_active_cue_index(),
    {
        self.get_first_active_cue_index()
    }

    /// Back to following playback.
    pub fn switch_to_normal_mode(&mut self)
        ensures
            final(self).state.deep_view() == old(self).state.deep_view().with_mode(ModeView::Normal),
            final(self).keeps_engine(*old(self)),
    {
        self.state.app_mode = AppMode::Normal;
    }
}

/// `s` without the occurrences of `x`.
pub open spec fn without(s: Seq<usize>, x: usize) -> Seq<usize>
    decreases s.len(),
{
    if s.len() == 0 {
        s
    } else {
        let r = without(s.drop_last(), x);
        if s.last() == x {
            r
        } else {
            r.push(s.last())
        }
    }
}

/// `s` without the edited cues at index `x`.
pub open spec fn without_edit(s: Seq<EditCueView>, x: usize) -> Seq<EditCueView>
    decreases s.len(),
{
    if s.len() == 0 {
        s
    } else {
        let r = without_edit(s.drop_last(), x);
        if s.last().index == x {
            r
        } else {
            r.push(s.last())
        }
    }
}

/// The indices of the edited cues.
pub open spec fn edit_indices(s: Seq<EditCueView>) -> Seq<usize> {
    s.map_values(|e: EditCueView| e.index)
}

/// `v` without the occurrences of `x`.
pub fn retain_other(v: &Vec<usize>, x: usize) -> (r: Vec<usize>)
    ensures
        r@ == without(v@, x),
{
    let mut r: Vec<usize> = Vec::new();
    let mut i: usize = 0;
    while i < v.len()
        invariant
            i <= v@.len(),
            r@ == without(v@.take(i as int), x),
        decreases v@.len() - i,
    {
        proof {
            let t = v@.take(i as int + 1);
            assert(t.drop_last() =~= v@.take(i as int));
        }
        if v[i] != x {
            r.push(v[i]);
        }
        i = i + 1;
    }
    assert(v@.take(v@.len() as int) =~= v@);
    r
}

/// `v` without the edited cues at index `x`.
pub fn retain_other_edit(v: Vec<crate::mode::EditCue>, x: usize) -> (r: Vec<crate::mode::EditCue>)
    ensures
        r.deep_view() == without_edit(v.deep_view(), x),
{
    let ghost s = v.deep_view();
    let mut rest = v;
    let mut r: Vec<crate::mode::EditCue> = Vec::new();
    let n = rest.len();
    let mut i: usize = 0;
    assert(r.deep_view() =~= without_edit(s.take(0), x));
    while i < n
        invariant
            n == s.len(),
            i <= n,
            rest.deep_view() == s.skip(i as int),
            r.deep_view() == without_edit(s.take(i as int), x),
        decreases n - i,
    {
        assert(rest.deep_view().len() == n - i);
        let e = crate::seqs::remove_at(&mut rest, 0);
        assert(rest.deep_view() =~= s.skip(i as int + 1));
        proof {
            let t = s.take(i as int + 1);
            assert(t.drop_last() =~= s.take(i as int));
            assert(t.last() == e.deep_view());
        }
        if e.index != x {
            let ghost before = r.deep_view();
            let ghost ev = e.deep_view();
            r.push(e);
            assert(r.deep_view() =~= before.push(ev));
        }
        i = i + 1;
    }
    assert(s.take(n as int) =~= s);
    r
}

/// The selected indices above `x` moved down by one.
pub open spec fn shift_down_above(s: Seq<usize>, x: usize) -> Seq<usize> {
    s.map_values(|c: usize| if c > x { (c - 1) as usize } else { c })
}

/// The edited cues above `x` moved down by one.
pub open spec fn shift_edit_down_above(s: Seq<EditCueView>, x: usize) -> Seq<EditCueView> {
    s.map_values(
        |e: EditCueView|
            if e.index > x {
                EditCueView { index: (e.index - 1) as usize, ..e }
            } else {
                e
            },
    )
}

/// The selected indices above `x` moved up by one.
pub open spec fn shift_up_above(s: Seq<usize>, x: usize) -> Seq<usize> {
    s.map_values(|c: usize| if c > x { (c + 1) as usize } else { c })
}

/// The edited cues above `x` moved up by one.
pub open spec fn shift_edit_up_above(s: Seq<EditCueView>, x: usize) -> Seq<EditCueView> {
    s.map_values(
        |e: EditCueView|
            if e.index > x {
                EditCueView { index: (e.index + 1) as usize, ..e }
            } else {
                e
            },
    )
}

/// Moves the selected indices above `x` down by one.
pub fn decrement_above(v: &mut Vec<usize>, x: usize)
    ensures
        final(v)@ == shift_down_above(old(v)@, x),
{
    let n = v.len();
    let mut i: usize = 0;
    while i < n
        invariant
            n == old(v)@.len(),
            v@.len() == n,
            i <= n,
            forall|k: int| 0 <= k < i ==> v@[k] == (if old(v)@[k] > x { (old(v)@[k] - 1) as usize } else { old(v)@[k] }),
            forall|k: int| i <= k < n ==> v@[k] == old(v)@[k],
        decreases n - i,
    {
        if v[i] > x {
            v[i] = v[i] - 1;
        }
        i = i + 1;
    }
    assert(v@ =~= shift_down_above(old(v)@, x));
}

/// Moves the selected indices above `x` up by one.
pub fn increment_above(v: &mut Vec<usize>, x: usize)
    requires
        forall|k: int| 0 <= k < old(v)@.len() ==> old(v)@[k] < usize::MAX,
    ensures
        final(v)@ == shift_up_above(old(v)@, x),
{
    let n = v.len();
    let mut i: usize = 0;
    while i < n
        invariant
            n == old(v)@.len(),
            v@.len() == n,
            i <= n,
            forall|k: int| 0 <= k < n ==> old(v)@[k] < usize::MAX,
            forall|k: int| 0 <= k < i ==> v@[k] == (if old(v)@[k] > x { (old(v)@[k] + 1) as usize } else { old(v)@[k] }),
            forall|k: int| i <= k < n ==> v@[k] == old(v)@[k],
        decreases n - i,
    {
        if v[i] > x {
            v[i] = v[i] + 1;
        }
        i = i + 1;
    }
    assert(v@ =~= shift_up_above(old(v)@, x));
}

/// Moves the edited cues above `x` down by one.
pub fn decrement_edit_above(v: &mut Vec<crate::mode::EditCue>, x: usize)
    ensures
        final(v).deep_view() == shift_edit_down_above(old(v).deep_view(), x),
{
    let n = v.len();
    let mut i: usize = 0;
    while i < n
        invariant
            n == old(v)@.len(),
            v@.len() == n,
            i <= n,
            forall|k: int| 0 <= k < i ==> #[trigger] v@[k].index == (if old(v)@[k].index > x {
                (old(v)@[k].index - 1) as usize
            } else {
                old(v)@[k].index
            }),
            forall|k: int| 0 <= k < n ==> #[trigger] v@[k].original_content == old(v)@[k].original_content,
            forall|k: int| i <= k < n ==> #[trigger] v@[k].index == old(v)@[k].index,
        decreases n - i,
    {
        let e = &mut v[i];
        if e.index > x {
            e.index = e.index - 1;
        }
        i = i + 1;
    }
    assert(v.deep_view() =~= shift_edit_down_above(old(v).deep_view(), x)) by {
        assert forall|k: int| 0 <= k < n implies v.deep_view()[k] == shift_edit_down_above(old(v).deep_view(), x)[k] by {
            assert(v@[k].index == (if old(v)@[k].index > x { (old(v)@[k].index - 1) as usize } else { old(v)@[k].index }));
            assert(v@[k].original_content == old(v)@[k].original_content);
        }
    }
}

/// Moves the edited cues above `x` up by one.
pub fn increment_edit_above(v: &mut Vec<crate::mode::EditCue>, x: usize)
    requires
        forall|k: int| 0 <= k < old(v)@.len() ==> old(v)@[k].index < usize::MAX,
    ensures
        final(v).deep_view() == shift_edit_up_above(old(v).deep_view(), x),
{
    let n = v.len();
    let mut i: usize = 0;
    while i < n
        invariant
            n == old(v)@.len(),
            v@.len() == n,
            i <= n,
            forall|k: int| 0 <= k < n ==> old(v)@[k].index < usize::MAX,
            forall|k: int| 0 <= k < i ==> #[trigger] v@[k].index == (if old(v)@[k].index > x {
                (old(v)@[k].index + 1) as usize
            } else {
                old(v)@[k].index
            }),
            forall|k: int| 0 <= k < n ==> #[trigger] v@[k].original_content == old(v)@[k].original_content,
            forall|k: int| i <= k < n ==> #[trigger] v@[k].index == old(v)@[k].index,
        decreases n - i,
    {
        let e = &mut v[i];
        if e.index > x {
            e.index = e.index + 1;
        }
        i = i + 1;
    }
    assert(v.deep_view() =~= shift_edit_up_above(old(v).deep_view(), x)) by {
        assert forall|k: int| 0 <= k < n implies v.deep_view()[k] == shift_edit_up_above(old(v).deep_view(), x)[k] by {
            assert(v@[k].index == (if old(v)@[k].index > x { (old(v)@[k].index + 1) as usize } else { old(v)@[k].index }));
            assert(v@[k].original_content == old(v)@[k].original_content);
        }
    }
}

} // verus!

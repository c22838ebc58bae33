//! The playback clock: the last position the player reported, and the time
//! played since then, measured here between reports.

use vstd::prelude::*;

use crate::state::{PlaybackStatus, PlayerEvent};
use std::time::Instant;

verus! {

#[verifier::external_type_specification]
#[verifier::external_body]
pub struct ExInstant(Instant);

/// `Instant::now`: the current instant. What it is depends on when it is
/// called, so no clause states it.
#[verifier::external_body]
fn instant_now() -> (r: Instant)
{
    Instant::now()
}

/// `Instant::elapsed`, in whole microseconds: the time since `t`. What it is
/// depends on when it is called, so no clause states it.
#[verifier::external_body]
fn micros_since(t: &Instant) -> (r: u128)
{
    t.elapsed().as_micros()
}

/// The position of playback between the player's reports.
pub struct PlaybackClock {
    /// The last position the player reported, in microseconds.
    pub last_position: i64,
    /// Time played since that report, in microseconds.
    pub interpolated_duration: i64,
    /// Added to every position.
    pub offset: i64,
    /// When the player last reported.
    pub last_sync: Instant,
    pub previous_playback_status: Option<PlaybackStatus>,
}

/// `d` cut down to whole seconds (towards zero), in microseconds.
pub open spec fn whole_seconds(d: i64) -> int {
    (if d >= 0 { d / 1_000_000 } else { -((-d) / 1_000_000) }) * 1_000_000
}

impl PlaybackClock {
    /// A clock at the start, shifted by `offset`.
    pub fn new(offset: i64) -> (r: Self)
        ensures
            r.last_position == 0,
            r.interpolated_duration == 0,
            r.offset == offset,
            r.previous_playback_status is None,
    {
        PlaybackClock {
            last_position: 0,
            interpolated_duration: 0,
            offset,
            last_sync: instant_now(),
            previous_playback_status: None,
        }
    }

    /// The position of playback: the last reported one, the time played
    /// since, and the offset.
    pub fn get_position(&self) -> (r: i64)
        requires
            i64::MIN <= self.last_position + self.interpolated_duration + self.offset <= i64::MAX,
        ensures
            r == self.last_position + self.interpolated_duration + self.offset,
    {
        let total: i128 = self.last_position as i128 + self.interpolated_duration as i128 + self.offset as i128;
        total as i64
    }

    /// The position of playback (the last reported one, the time played
    /// since, and the offset), where it fits in an `i64`.
    pub open spec fn position_if_fits(self) -> Option<i64> {
        let p = self.last_position + self.interpolated_duration + self.offset;
        if i64::MIN <= p <= i64::MAX { Some(p as i64) } else { None }
    }

    /// The position of playback, where it fits in an `i64`.
    pub fn checked_position(&self) -> (r: Option<i64>)
        ensures
            r == self.position_if_fits(),
    {
        let total: i128 = self.last_position as i128 + self.interpolated_duration as i128 + self.offset as i128;
        if total < i64::MIN as i128 || total > i64::MAX as i128 {
            None
        } else {
            Some(total as i64)
        }
    }

    /// `self` is `before` after the player's report `event`: a jump keeps
    /// the position jumped to as its whole seconds and the rest; any other
    /// report changes nothing.
    pub open spec fn took_event(self, before: PlaybackClock, event: PlayerEvent) -> bool {
        match event {
            PlayerEvent::Seeked(d) => {
                &&& self.last_position == whole_seconds(d)
                &&& self.interpolated_duration == d - whole_seconds(d)
                &&& self.offset == before.offset
                &&& self.previous_playback_status == before.previous_playback_status
            },
            _ => self == before,
        }
    }

    /// Takes a report of the player (see `took_event`).
    pub fn update(&mut self, event: &PlayerEvent)
        ensures
            final(self).took_event(*old(self), *event),
    {
        match event {
            PlayerEvent::Seeked(d) => {
                let x: i128 = *d as i128;
                let w: i128 = if x >= 0 { (x / 1_000_000) * 1_000_000 } else { -(((-x) / 1_000_000) * 1_000_000) };
                assert(w == whole_seconds(*d));
                assert(-9_223_372_036_854_775_808 <= w <= 9_223_372_036_854_775_807) by (nonlinear_arith)
                    requires
                        x == *d as i128,
                        x >= 0 ==> w == (x / 1_000_000) * 1_000_000,
                        x < 0 ==> w == -(((-x) / 1_000_000) * 1_000_000),
                        -9_223_372_036_854_775_808 <= x <= 9_223_372_036_854_775_807;
                let whole = w as i64;
                self.last_position = whole;
                self.interpolated_duration = *d - whole;
                self.last_sync = instant_now();
            },
            _ => {},
        }
    }

    /// Takes a report of the player, `elapsed` microseconds after the last
    /// one: the time is counted as played where the player was playing; a
    /// new position starts the count again.
    pub fn advance(&mut self, elapsed: i64, current_position: i64, playback_status: PlaybackStatus)
        requires
            old(self).previous_playback_status == Some(PlaybackStatus::Playing) ==> i64::MIN
                <= old(self).interpolated_duration + elapsed <= i64::MAX,
        ensures
            final(self).previous_playback_status == Some(playback_status),
            final(self).offset == old(self).offset,
            final(self).last_sync == old(self).last_sync,
            final(self).last_position == current_position,
            final(self).interpolated_duration == if current_position != old(self).last_position {
                0
            } else if old(self).previous_playback_status == Some(PlaybackStatus::Playing) {
                old(self).interpolated_duration + elapsed
            } else {
                old(self).interpolated_duration as int
            },
    {
        let playing = match self.previous_playback_status {
            Some(PlaybackStatus::Playing) => true,
            _ => false,
        };
        if playing {
            self.interpolated_duration = self.interpolated_duration + elapsed;
        }
        if current_position != self.last_position {
            self.last_position = current_position;
            self.interpolated_duration = 0;
        }
        self.previous_playback_status = Some(playback_status);
    }

    /// Takes a report of the player, measuring the time since the last one
    /// (see `sync_elapsed`); an error where that time, or the time played,
    /// is beyond what the clock holds. The time measured depends on when it
    /// is called, so what is stated holds for some time measured.
    pub fn sync(&mut self, current_position: i64, playback_status: PlaybackStatus) -> (r: Result<(), String>)
        ensures
            r is Ok ==> final(self).previous_playback_status == Some(playback_status)
                && final(self).last_position == current_position && final(self).offset == old(self).offset,
            r is Ok && current_position != old(self).last_position ==> final(self).interpolated_duration == 0,
            r is Ok && current_position == old(self).last_position && old(self).previous_playback_status
                != Some(PlaybackStatus::Playing) ==> final(self).interpolated_duration == old(self).interpolated_duration,
            r is Ok && current_position == old(self).last_position && old(self).previous_playback_status
                == Some(PlaybackStatus::Playing) ==> final(self).interpolated_duration >= old(self).interpolated_duration,
            r is Err ==> *final(self) == *old(self),
            exists|elapsed: u128| #[trigger] final(self).synced(*old(self), elapsed, current_position, playback_status, r is Ok),
    {
        let elapsed = self.elapsed_since_sync();
        let r = self.sync_elapsed(elapsed, current_position, playback_status);
        if r.is_ok() {
            self.restart_count();
        }
        proof {
            assert(self.synced(*old(self), elapsed, current_position, playback_status, r is Ok));
        }
        r
    }

    /// The time since the player last reported, in whole microseconds.
    pub(crate) fn elapsed_since_sync(&self) -> u128 {
        micros_since(&self.last_sync)
    }

    /// Starts measuring the time since the player reported again.
    pub(crate) fn restart_count(&mut self)
        ensures
            final(self).same_count(*old(self)),
    {
        self.last_sync = instant_now();
    }

    /// `self` counts as `other` does: the same reported position, time
    /// played since, offset and playback status.
    pub open spec fn same_count(self, other: PlaybackClock) -> bool {
        &&& self.last_position == other.last_position
        &&& self.interpolated_duration == other.interpolated_duration
        &&& self.offset == other.offset
        &&& self.previous_playback_status == other.previous_playback_status
    }

    /// A report `elapsed` microseconds after the last one is beyond what
    /// the clock holds: the time does not fit in an `i64`, or, while
    /// playing, the time played does not.
    pub open spec fn sync_fails(self, elapsed: u128) -> bool {
        ||| elapsed > i64::MAX
        ||| (self.previous_playback_status == Some(PlaybackStatus::Playing)
            && self.interpolated_duration + elapsed > i64::MAX)
    }

    /// `self` is `before` after the player's report of `current_position` and
    /// `playback_status`, `elapsed` microseconds after the last one, taken
    /// (`ok`) as `advance` takes it, or refused where it is beyond what the
    /// clock holds (the count then unchanged).
    pub open spec fn synced(
        self,
        before: PlaybackClock,
        elapsed: u128,
        current_position: i64,
        playback_status: PlaybackStatus,
        ok: bool,
    ) -> bool {
        if before.sync_fails(elapsed) {
            !ok && self.same_count(before)
        } else {
            &&& ok
            &&& self.previous_playback_status == Some(playback_status)
            &&& self.offset == before.offset
            &&& self.last_position == current_position
            &&& self.interpolated_duration == if current_position != before.last_position {
                0
            } else if before.previous_playback_status == Some(PlaybackStatus::Playing) {
                before.interpolated_duration + elapsed
            } else {
                before.interpolated_duration as int
            }
        }
    }

    /// Takes a report of the player `elapsed` microseconds after the last
    /// one (see `synced`): an error, and nothing changed, where that time or
    /// the time played is beyond what the clock holds.
    pub fn sync_elapsed(&mut self, elapsed: u128, current_position: i64, playback_status: PlaybackStatus) -> (r: Result<(), String>)
        ensures
            final(self).synced(*old(self), elapsed, current_position, playback_status, r is Ok),
            final(self).last_sync == old(self).last_sync,
            r is Err ==> *final(self) == *old(self),
    {
        if elapsed > 9_223_372_036_854_775_807u128 {
            return Err(String::from_str("elapsed time out of range"));
        }
        let e = elapsed as i64;
        let playing = match self.previous_playback_status {
            Some(PlaybackStatus::Playing) => true,
            _ => false,
        };
        if playing && (e > 0 && self.interpolated_duration > i64::MAX - e) {
            return Err(String::from_str("elapsed time out of range"));
        }
        self.advance(e, current_position, playback_status);
        Ok(())
    }
}

/// After the player jumps to `d`, the clock's position is `d` shifted by
/// the offset: the jump is kept as whole seconds and the rest, and nothing
/// is lost between them.
pub proof fn law_jump_then_position(after: PlaybackClock, before: PlaybackClock, d: i64)
    requires
        after.took_event(before, PlayerEvent::Seeked(d)),
    ensures
        after.last_position + after.interpolated_duration + after.offset == d + before.offset,
{
}

} // verus!

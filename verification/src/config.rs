//! The editor's settings: the players to follow, in order of preference, and
//! the times (in microseconds) that playback and cue keys move by.

use vstd::prelude::*;

verus! {

/// The editor's settings.
pub struct Config {
    /// Media players to follow, most preferred first.
    pub targets_in_priority_order: Vec<String>,
    /// Added to the position the player reports.
    pub clock_offset: i64,
    /// How far the rewind key seeks (negative: back).
    pub rewind_duration: i64,
    /// How far the fast-forward key seeks.
    pub fast_forward_duration: i64,
    pub forwards_cue_increment_large: i64,
    pub backwards_cue_increment_large: i64,
    pub forwards_cue_increment_small: i64,
    pub backwards_cue_increment_small: i64,
}

impl Default for Config {
    /// Follows mpv, then cmus; seeks by five seconds; moves cues by ten
    /// milliseconds, or half a second.
    fn default() -> (r: Self)
        ensures
            r.targets_in_priority_order@.len() == 2,
            r.targets_in_priority_order@[0]@ == "mpv"@,
            r.targets_in_priority_order@[1]@ == "cmus"@,
            r.clock_offset == 0,
            r.rewind_duration == -5_000_000,
            r.fast_forward_duration == 5_000_000,
            r.forwards_cue_increment_small == 10_000,
            r.backwards_cue_increment_small == 10_000,
            r.forwards_cue_increment_large == 500_000,
            r.backwards_cue_increment_large == 500_000,
    {
        let targets_in_priority_order = vec![String::from_str("mpv"), String::from_str("cmus")];
        Config {
            targets_in_priority_order,
            clock_offset: 0,
            rewind_duration: -5_000_000,
            fast_forward_duration: 5_000_000,
            forwards_cue_increment_small: 10_000,
            backwards_cue_increment_small: 10_000,
            forwards_cue_increment_large: 500_000,
            backwards_cue_increment_large: 500_000,
        }
    }
}

} // verus!

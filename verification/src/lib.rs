//! Verified core of a synchronised-lyrics editor: cursor movement, selection,
//! cue insertion and deletion, cue timing, edit history and the decisions that
//! the terminal front end takes on each key.

use vstd::prelude::*;

pub mod alignment;
pub mod app;
pub mod args;
pub mod clock;
pub mod config;
pub mod cues;
pub mod discovery;
pub mod history;
pub mod keyboard;
pub mod lyrics;
pub mod modal;
pub mod mode;
pub mod seqs;
pub mod sort;
pub mod state;
pub mod synchronizer;
pub mod translation;

verus! {

} // verus!

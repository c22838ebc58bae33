//! What the command line asks for: the editor with a front end, or the
//! background service; the terminal editor by default.

use vstd::prelude::*;

verus! {

/// The front end of the editor.
#[derive(Debug, Clone, Copy, PartialEq, Eq, Structural)]
pub enum Frontend {
    Tui,
    Gui,
}

/// What to run.
#[derive(Debug, Clone, Copy, PartialEq, Eq, Structural)]
pub enum Command {
    App { frontend: Frontend },
    Daemon,
}

/// The command line.
#[derive(Debug, Clone, Copy, PartialEq, Eq, Structural)]
pub struct Args {
    pub command: Option<Command>,
}

impl Args {
    /// What to run: the command given, else the terminal editor.
    pub fn resolved_command(&self) -> (r: Command)
        ensures
            r == match self.command {
                Some(c) => c,
                None => Command::App { frontend: Frontend::Tui },
            },
    {
        match self.command {
            Some(c) => c,
            None => Command::App { frontend: Frontend::Tui },
        }
    }
}

} // verus!

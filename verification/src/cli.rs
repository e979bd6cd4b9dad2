//! The parsed command line, as plain values: which command runs, and on
//! which directory.

use vstd::prelude::*;

verus! {

/// The whole command line: one subcommand.
#[derive(Debug, Clone)]
pub struct Cli {
    pub command: Commands,
}

/// The two subcommands: set up a fresh deck directory, or start a session.
#[derive(Debug, Clone)]
pub enum Commands {
    Init(DirArgs),
    Start(DirArgs),
}

/// The deck directory a command works on.
#[derive(Debug, Clone)]
pub struct DirArgs {
    pub dir: String,
}

} // verus!

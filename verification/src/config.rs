//! What the command line configures: the number to test and how much is logged.

use vstd::prelude::*;

verus! {

/// How much is logged: the most talkative level that still gets through. The
/// levels are those of the `log` crate, from silence to everything.
#[derive(Clone, Copy, Debug, PartialEq, Eq, Structural)]
pub enum LevelFilter {
    /// Nothing.
    Off,
    /// Errors only.
    Error,
    /// Warnings and errors.
    Warn,
    /// Informational messages and what is more severe.
    Info,
    /// Debug messages and what is more severe.
    Debug,
    /// Everything.
    Trace,
}

/// The three verbosity switches of the command line. At most one of them is
/// meant to be set; when several are, the most talkative one wins.
pub struct Verbosity {
    pub debug: bool,
    pub verbose: bool,
    pub quiet: bool,
}

/// What the command line carries: the verbosity switches and the number to test,
/// still as text.
pub struct Arguments {
    pub verbosity: Verbosity,
    pub number: String,
}

impl Verbosity {
    /// The log level that the switches select: everything with `debug`, debug
    /// messages and above with `verbose`, warnings and errors with `quiet`, and
    /// informational messages and above with none of them.
    pub open spec fn filter(&self) -> LevelFilter {
        if self.debug {
            LevelFilter::Trace
        } else if self.verbose {
            LevelFilter::Debug
        } else if self.quiet {
            LevelFilter::Warn
        } else {
            LevelFilter::Info
        }
    }

    /// Maps the switches to the log level that they select.
    pub fn to_filter(&self) -> (level: LevelFilter)
        ensures
            level == self.filter(),
    {
        if self.debug {
            LevelFilter::Trace
        } else if self.verbose {
            LevelFilter::Debug
        } else if self.quiet {
            LevelFilter::Warn
        } else {
            LevelFilter::Info
        }
    }
}

} // verus!

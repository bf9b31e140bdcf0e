//! Verbosity of the checker's log, and the levels it maps to.
use vstd::prelude::*;

verus! {

/// How much the checker logs.
#[derive(Debug, Copy, Clone, Hash, PartialEq, Eq, Structural)]
pub enum Verbosity {
    Info,
    Debug,
    Trace,
}

/// A level filter of the log, from the most to the least restrictive.
#[derive(Debug, Copy, Clone, Hash, PartialEq, Eq, Structural)]
pub enum LevelFilter {
    Off,
    Error,
    Warn,
    Info,
    Debug,
    Trace,
}

impl Verbosity {
    /// The level filter of the whole log for this verbosity.
    pub fn level_filter(&self) -> (r: LevelFilter)
        ensures
            r == match *self {
                Verbosity::Info => LevelFilter::Info,
                Verbosity::Debug => LevelFilter::Debug,
                Verbosity::Trace => LevelFilter::Trace,
            },
    {
        match self {
            Verbosity::Info => LevelFilter::Info,
            Verbosity::Debug => LevelFilter::Debug,
            Verbosity::Trace => LevelFilter::Trace,
        }
    }
}

/// The level filter of the checker's own log target: `Info`, whatever the
/// verbosity.
pub fn rlc_level_filter() -> (r: LevelFilter)
    ensures
        r == LevelFilter::Info,
{
    LevelFilter::Info
}

/// The log target whose records also go to the log file.
pub fn output_target() -> (r: &'static str)
    ensures
        r@ == "rlc-output"@,
{
    "rlc-output"
}

} // verus!

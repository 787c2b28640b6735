//! Log levels of the command line, and the filter each one stands for.
use vstd::prelude::*;

verus! {

/// How much the command line reports.
#[derive(Debug, Clone, Copy, PartialEq, Eq, PartialOrd, Ord)]
pub enum LogLevel {
    /// Only errors.
    Quiet,
    /// Errors + warnings (default).
    Normal,
    /// + info messages: config loading, strategy selection, scope detection.
    Verbose,
    /// + debug messages: per-chunk details, raw API fields.
    Debug,
}

/// The `tracing` filter directive for a level.
pub open spec fn level_filter(level: LogLevel) -> Seq<char> {
    match level {
        LogLevel::Quiet => "error"@,
        LogLevel::Normal => "warn"@,
        LogLevel::Verbose => "info"@,
        LogLevel::Debug => "debug"@,
    }
}

impl LogLevel {
    /// The `tracing` filter directive for this level.
    pub fn to_filter(self) -> (r: &'static str)
        ensures
            r@ == level_filter(self),
    {
        match self {
            LogLevel::Quiet => "error",
            LogLevel::Normal => "warn",
            LogLevel::Verbose => "info",
            LogLevel::Debug => "debug",
        }
    }

    /// Whether this level shows debug output (and so the event targets).
    pub fn shows_debug(self) -> (r: bool)
        ensures
            r == (self == LogLevel::Debug),
    {
        match self {
            LogLevel::Debug => true,
            _ => false,
        }
    }
}

} // verus!

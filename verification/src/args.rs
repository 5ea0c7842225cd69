use vstd::prelude::*;

verus! {

/// How much is logged.
#[derive(Copy, Clone, Debug, PartialEq, Eq, Structural)]
pub enum LogLevel {
    Error,
    Warn,
    Info,
    Debug,
    Trace,
}

impl LogLevel {
    /// The level for `occurrences` requests for more verbosity: each request goes one
    /// level further, up to the last.
    pub open spec fn for_verbosity(occurrences: int) -> LogLevel {
        if occurrences == 0 {
            LogLevel::Error
        } else if occurrences == 1 {
            LogLevel::Warn
        } else if occurrences == 2 {
            LogLevel::Info
        } else if occurrences == 3 {
            LogLevel::Debug
        } else {
            LogLevel::Trace
        }
    }

    /// The level for `occurrences` requests for more verbosity.
    pub fn from_verbosity(occurrences: u64) -> (r: Self)
        ensures
            r == Self::for_verbosity(occurrences as int),
    {
        if occurrences == 0 {
            LogLevel::Error
        } else if occurrences == 1 {
            LogLevel::Warn
        } else if occurrences == 2 {
            LogLevel::Info
        } else if occurrences == 3 {
            LogLevel::Debug
        } else {
            LogLevel::Trace
        }
    }
}

/// What a participant or the diagnosis server is called with.
#[derive(Debug)]
pub struct Args {
    pub config_file_path: String,
    pub log_file_path: String,
    pub log_level: LogLevel,
}

impl Args {
    /// The arguments for the given paths and `verbosity` requests for more verbosity.
    pub fn from_values(config_file_path: String, log_file_path: String, verbosity: u64) -> (r: Self)
        ensures
            r.config_file_path == config_file_path,
            r.log_file_path == log_file_path,
            r.log_level == LogLevel::for_verbosity(verbosity as int),
    {
        Args { config_file_path, log_file_path, log_level: LogLevel::from_verbosity(verbosity) }
    }
}

} // verus!

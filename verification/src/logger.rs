//! Logger settings: the level mapping and the size check that log
//! rotation is driven by. The actual sinks and file handling are
//! collaborators outside the core.

use vstd::prelude::*;
use crate::config::LoggingConfig;
use crate::text::lower_seq;
use crate::text::eq_lowered;

verus! {

/// Severity threshold of the logger.
#[derive(Clone, Copy, PartialEq, Eq, Structural, Debug)]
pub enum LogLevel {
    Error,
    Warn,
    Info,
    Debug,
    Trace,
}

/// The level named by a configuration string; an unknown name falls
/// back to `Info`.
pub open spec fn spec_level_from_str(s: Seq<char>) -> LogLevel {
    if lower_seq(s) == "error"@ {
        LogLevel::Error
    } else if lower_seq(s) == "warn"@ {
        LogLevel::Warn
    } else if lower_seq(s) == "info"@ {
        LogLevel::Info
    } else if lower_seq(s) == "debug"@ {
        LogLevel::Debug
    } else if lower_seq(s) == "trace"@ {
        LogLevel::Trace
    } else {
        LogLevel::Info
    }
}

/// Logger configuration.
pub struct Logger {
    /// Severity threshold
    pub level: LogLevel,
    /// Whether to log to file
    pub log_to_file: bool,
    /// Maximum log file size in MB
    pub max_file_size: u32,
    /// Number of log files to keep
    pub max_files: u32,
}

impl Logger {
    /// Create a new logger from configuration.
    pub fn new(config: &LoggingConfig) -> (r: Self)
        ensures
            r.level == spec_level_from_str(config.level@),
            r.log_to_file == config.log_to_file,
            r.max_file_size == config.max_file_size,
            r.max_files == config.max_files,
    {
        let level = if eq_lowered(config.level.as_str(), "error") {
            LogLevel::Error
        } else if eq_lowered(config.level.as_str(), "warn") {
            LogLevel::Warn
        } else if eq_lowered(config.level.as_str(), "info") {
            LogLevel::Info
        } else if eq_lowered(config.level.as_str(), "debug") {
            LogLevel::Debug
        } else if eq_lowered(config.level.as_str(), "trace") {
            LogLevel::Trace
        } else {
            LogLevel::Info
        };
        Logger {
            level,
            log_to_file: config.log_to_file,
            max_file_size: config.max_file_size,
            max_files: config.max_files,
        }
    }

    /// Whether a log file of the given size exceeds the configured
    /// maximum (given in megabytes).
    pub fn check_log_file_size(&self, size_bytes: u64) -> (r: bool)
        ensures
            r == (size_bytes > self.max_file_size as u64 * 1024 * 1024),
    {
        size_bytes > (self.max_file_size as u64) * 1024 * 1024
    }
}

/// Set up the application logger (legacy shim; the configured logger
/// supersedes it and this does nothing).
pub fn setup_logger() -> (r: Result<(), ()>)
    ensures
        r is Ok,
{
    Ok(())
}

} // verus!

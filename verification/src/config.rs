//! Configuration values that the core consumes: conversation bounds,
//! logging settings, and the generation-parameter defaults.

use vstd::prelude::*;
use crate::text::{eq_lowered, lower_seq};

verus! {

/// Conversation configuration.
pub struct ConversationConfig {
    /// Maximum conversation length, in messages kept
    pub max_length: usize,
    /// Whether to save conversations automatically
    pub auto_save: bool,
}

impl Default for ConversationConfig {
    fn default() -> (r: Self)
        ensures
            r.max_length == 10000,
            r.auto_save == true,
    {
        ConversationConfig { max_length: 10000, auto_save: true }
    }
}

/// Logging configuration.
pub struct LoggingConfig {
    /// Log level name
    pub level: String,
    /// Whether to log to file
    pub log_to_file: bool,
    /// Maximum log file size in MB
    pub max_file_size: u32,
    /// Number of log files to keep
    pub max_files: u32,
}

impl Default for LoggingConfig {
    fn default() -> (r: Self)
        ensures
            r.level@ == "info"@,
            r.log_to_file == true,
            r.max_file_size == 10,
            r.max_files == 5,
    {
        LoggingConfig {
            level: "info".to_owned(),
            log_to_file: true,
            max_file_size: 10,
            max_files: 5,
        }
    }
}

/// Default top-k sampling value.
pub fn default_top_k() -> (r: u32)
    ensures
        r == 40,
{
    40
}

/// Default maximum number of tokens to generate.
pub fn default_max_tokens() -> (r: u32)
    ensures
        r == 2048,
{
    2048
}

/// Whether `s` names a log level, ASCII-case-insensitively.
pub open spec fn spec_valid_log_level(s: Seq<char>) -> bool {
    ||| lower_seq(s) == "error"@
    ||| lower_seq(s) == "warn"@
    ||| lower_seq(s) == "info"@
    ||| lower_seq(s) == "debug"@
    ||| lower_seq(s) == "trace"@
}

/// Checks a configured log level name.
pub fn valid_log_level(s: &str) -> (r: bool)
    ensures
        r == spec_valid_log_level(s@),
{
    eq_lowered(s, "error") || eq_lowered(s, "warn") || eq_lowered(s, "info") || eq_lowered(
        s,
        "debug",
    ) || eq_lowered(s, "trace")
}

} // verus!

//! Log level names accepted in the configuration.

use vstd::prelude::*;

use crate::utils::str_equals;

verus! {

/// The verbosity levels that a configuration may name.
#[derive(Debug, Clone, Copy, PartialEq, Eq, Structural)]
pub enum LogLevel {
    Trace,
    Debug,
    Info,
    Warn,
    Error,
    Off,
}

/// The error returned for a log level name that is not recognised; it holds
/// the lower-cased name.
#[derive(Debug)]
pub enum LogLevelError {
    InvalidLogLevel(String),
}

/// What `str::to_lowercase` returns for a string (Unicode lower-case mapping).
pub uninterp spec fn spec_to_lowercase(s: Seq<char>) -> Seq<char>;

/// Every character is ASCII.
pub open spec fn is_ascii_chars(s: Seq<char>) -> bool {
    forall|i: int| 0 <= i < s.len() ==> (#[trigger] s[i] as u32) < 128
}

/// The ASCII lower-case of a character: `A` to `Z` become `a` to `z`, every
/// other character stays.
pub open spec fn ascii_lower(c: char) -> char {
    if 'A' <= c && c <= 'Z' {
        ((c as u32) + 32) as char
    } else {
        c
    }
}

/// The ASCII lower-case of every character of `s`.
pub open spec fn ascii_lowercase(s: Seq<char>) -> Seq<char> {
    s.map_values(|c: char| ascii_lower(c))
}

/// Calls `str::to_lowercase`; its result is the Unicode lower-case mapping of
/// the argument, which depends on the argument alone. On ASCII text that
/// mapping turns `A` to `Z` into `a` to `z` and leaves every other character.
#[verifier::external_body]
fn to_lowercase(s: &str) -> (res: String)
    ensures
        res@ == spec_to_lowercase(s@),
        is_ascii_chars(s@) ==> res@ == ascii_lowercase(s@),
{
    s.to_lowercase()
}

/// The level that a lower-case name denotes, if any.
pub open spec fn spec_level_of_name(name: Seq<char>) -> Option<LogLevel> {
    if name == "trace"@ {
        Some(LogLevel::Trace)
    } else if name == "debug"@ {
        Some(LogLevel::Debug)
    } else if name == "info"@ {
        Some(LogLevel::Info)
    } else if name == "warn"@ {
        Some(LogLevel::Warn)
    } else if name == "error"@ {
        Some(LogLevel::Error)
    } else if name == "off"@ {
        Some(LogLevel::Off)
    } else {
        None
    }
}

/// Maps an already lower-cased level name to its level.
pub fn log_level_from_lowercase(name: String) -> (res: Result<LogLevel, LogLevelError>)
    ensures
        match res {
            Ok(level) => spec_level_of_name(name@) == Some(level),
            Err(LogLevelError::InvalidLogLevel(n)) => spec_level_of_name(name@) is None && n@ == name@,
        },
{
    proof {
        reveal_strlit("trace");
        reveal_strlit("debug");
        reveal_strlit("info");
        reveal_strlit("warn");
        reveal_strlit("error");
        reveal_strlit("off");
    }
    if str_equals(name.as_str(), "trace") {
        Ok(LogLevel::Trace)
    } else if str_equals(name.as_str(), "debug") {
        Ok(LogLevel::Debug)
    } else if str_equals(name.as_str(), "info") {
        Ok(LogLevel::Info)
    } else if str_equals(name.as_str(), "warn") {
        Ok(LogLevel::Warn)
    } else if str_equals(name.as_str(), "error") {
        Ok(LogLevel::Error)
    } else if str_equals(name.as_str(), "off") {
        Ok(LogLevel::Off)
    } else {
        Err(LogLevelError::InvalidLogLevel(name))
    }
}

/// Parses a log level name, ignoring case: "trace", "debug", "info", "warn",
/// "error" or "off".
pub fn parse_log_level(log_level: &str) -> (res: Result<LogLevel, LogLevelError>)
    ensures
        match res {
            Ok(level) => spec_level_of_name(spec_to_lowercase(log_level@)) == Some(level),
            Err(LogLevelError::InvalidLogLevel(n)) => spec_level_of_name(spec_to_lowercase(log_level@)) is None
                && n@ == spec_to_lowercase(log_level@),
        },
        is_ascii_chars(log_level@) ==> match res {
            Ok(level) => spec_level_of_name(ascii_lowercase(log_level@)) == Some(level),
            Err(LogLevelError::InvalidLogLevel(n)) => spec_level_of_name(ascii_lowercase(log_level@)) is None
                && n@ == ascii_lowercase(log_level@),
        },
{
    let lowered = to_lowercase(log_level);
    log_level_from_lowercase(lowered)
}

/// Level names ignore case: two ASCII names that differ only in the case of
/// their letters name the same level, or both none.
pub proof fn lemma_level_names_ignore_case(a: Seq<char>, b: Seq<char>)
    requires
        a.len() == b.len(),
        forall|i: int| 0 <= i < a.len() ==> ascii_lower(#[trigger] a[i]) == ascii_lower(b[i]),
    ensures
        spec_level_of_name(ascii_lowercase(a)) == spec_level_of_name(ascii_lowercase(b)),
{
    assert(ascii_lowercase(a) =~= ascii_lowercase(b));
}

} // verus!

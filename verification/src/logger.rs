//! Log levels and their names. Wiring a level into an actual log sink is
//! the caller's business; the library only decides what a level string
//! means.

use vstd::prelude::*;
use vstd::string::StringExecFns;
use crate::text::str_eq;

verus! {

/// The verbosity levels the program understands.
#[derive(Debug, PartialEq, Eq, Structural, Clone, Copy)]
pub enum LogLevel {
    Off,
    Trace,
    Debug,
    Info,
    Warn,
    Error,
}

impl Default for LogLevel {
    /// The level used when none was asked for.
    fn default() -> (r: Self)
        ensures
            r == LogLevel::Info,
    {
        LogLevel::Info
    }
}

/// A level string that names no known level.
#[derive(Debug)]
pub enum LevelToStrError {
    NoSuchValue(String),
}

impl LevelToStrError {
    /// A line saying which level string was refused.
    pub fn describe(&self) -> (r: String)
        ensures
            match *self {
                LevelToStrError::NoSuchValue(ref v) => r@ == "No such log level: "@ + v@,
            },
    {
        match self {
            LevelToStrError::NoSuchValue(v) => String::from_str(
                "No such log level: ",
            ).concat(v.as_str()),
        }
    }
}

/// Which level a string names, if any; the comparison is exact.
pub open spec fn log_level_of(s: Seq<char>) -> Option<LogLevel> {
    if s == "off"@ {
        Some(LogLevel::Off)
    } else if s == "trace"@ {
        Some(LogLevel::Trace)
    } else if s == "debug"@ {
        Some(LogLevel::Debug)
    } else if s == "info"@ {
        Some(LogLevel::Info)
    } else if s == "warn"@ {
        Some(LogLevel::Warn)
    } else if s == "error"@ {
        Some(LogLevel::Error)
    } else {
        None
    }
}

/// The canonical name of a level.
pub open spec fn log_level_name(l: LogLevel) -> Seq<char> {
    match l {
        LogLevel::Off => "off"@,
        LogLevel::Trace => "trace"@,
        LogLevel::Debug => "debug"@,
        LogLevel::Info => "info"@,
        LogLevel::Warn => "warn"@,
        LogLevel::Error => "error"@,
    }
}

/// Parses a level string; an unknown string is reported back verbatim.
pub fn parse_log_level(s: &str) -> (r: Result<LogLevel, LevelToStrError>)
    ensures
        match r {
            Ok(l) => log_level_of(s@) == Some(l),
            Err(e) => log_level_of(s@) is None && match e {
                LevelToStrError::NoSuchValue(v) => v@ == s@,
            },
        },
{
    if str_eq(s, "off") {
        Ok(LogLevel::Off)
    } else if str_eq(s, "trace") {
        Ok(LogLevel::Trace)
    } else if str_eq(s, "debug") {
        Ok(LogLevel::Debug)
    } else if str_eq(s, "info") {
        Ok(LogLevel::Info)
    } else if str_eq(s, "warn") {
        Ok(LogLevel::Warn)
    } else if str_eq(s, "error") {
        Ok(LogLevel::Error)
    } else {
        Err(LevelToStrError::NoSuchValue(s.to_owned()))
    }
}

impl LogLevel {
    /// The canonical name of this level.
    pub fn name(&self) -> (r: String)
        ensures
            r@ == log_level_name(*self),
    {
        match self {
            LogLevel::Off => String::from_str("off"),
            LogLevel::Trace => String::from_str("trace"),
            LogLevel::Debug => String::from_str("debug"),
            LogLevel::Info => String::from_str("info"),
            LogLevel::Warn => String::from_str("warn"),
            LogLevel::Error => String::from_str("error"),
        }
    }
}

} // verus!

//! Log levels and the lines that are logged.

use vstd::prelude::*;
use vstd::string::{StringExecFns, StringSliceAdditionalSpecFns};

verus! {

/// How grave a message is. The graver a level, the lower its rank.
#[derive(Debug, Clone, Copy, PartialEq, Eq)]
pub enum LogLevel {
    Error,
    Warn,
    Info,
    Debug,
}

/// The level up to which messages are logged where none is configured.
pub const DEFAULT_LOG_LEVEL: u8 = 2;

impl LogLevel {
    /// The name of the level as it stands in a logged line.
    pub open spec fn name(&self) -> Seq<char> {
        match self {
            LogLevel::Error => "ERROR"@,
            LogLevel::Warn => "WARN"@,
            LogLevel::Info => "INFO"@,
            LogLevel::Debug => "DEBUG"@,
        }
    }

    /// The rank of the level: 0 for errors, rising to 3 for debug messages.
    pub open spec fn rank(&self) -> u8 {
        match self {
            LogLevel::Error => 0,
            LogLevel::Warn => 1,
            LogLevel::Info => 2,
            LogLevel::Debug => 3,
        }
    }

    /// The name of the level as it stands in a logged line.
    pub fn as_str(&self) -> (r: &'static str)
        ensures
            r@ == self.name(),
    {
        match self {
            LogLevel::Error => "ERROR",
            LogLevel::Warn => "WARN",
            LogLevel::Info => "INFO",
            LogLevel::Debug => "DEBUG",
        }
    }

    /// The rank of the level.
    pub fn as_u8(&self) -> (r: u8)
        ensures
            r == self.rank(),
    {
        match self {
            LogLevel::Error => 0,
            LogLevel::Warn => 1,
            LogLevel::Info => 2,
            LogLevel::Debug => 3,
        }
    }
}

/// The line that is logged for a message: the level in brackets, a space,
/// the message, and a line feed.
pub open spec fn line_of(level: LogLevel, message: Seq<char>) -> Seq<char> {
    seq!['['] + level.name() + seq![']', ' '] + message + seq!['\n']
}

/// Makes the line that every registered logger is to write for a message.
pub fn log(level: LogLevel, message: &str) -> (line: String)
    ensures
        line@ == line_of(level, message@),
{
    let mut line = String::from_str("[");
    line.append(level.as_str());
    line.append("] ");
    line.append(message);
    line.append("\n");
    proof {
        reveal_strlit("[");
        reveal_strlit("] ");
        reveal_strlit("\n");
        assert("["@ =~= seq!['[']);
        assert("] "@ =~= seq![']', ' ']);
        assert("\n"@ =~= seq!['\n']);
    }
    line
}

/// Whether a message of `level` is logged where levels up to `max` are.
pub fn should_log(level: LogLevel, max: u8) -> (r: bool)
    ensures
        r == (level.rank() <= max),
{
    level.as_u8() <= max
}

/// The level that the bytes of a configured value stand for: the value of
/// their first byte where that is a decimal digit, else the default.
pub open spec fn level_of(bytes: Seq<u8>) -> u8 {
    if bytes.len() > 0 && 0x30 <= bytes[0] <= 0x39 {
        (bytes[0] - 0x30) as u8
    } else {
        DEFAULT_LOG_LEVEL
    }
}

/// Reads the level up to which messages are logged from its configured
/// value, if there is one.
pub fn parse_log_level(level: Option<&str>) -> (r: u8)
    ensures
        r == match level {
            Some(s) => level_of(s.spec_bytes()),
            None => DEFAULT_LOG_LEVEL,
        },
{
    match level {
        Some(level_str) => {
            let bytes = level_str.as_bytes();
            if bytes.len() == 0 {
                return 2;
            }
            let first: u8 = bytes[0];
            if first >= 0x30 && first <= 0x39 {
                first - 0x30
            } else {
                2
            }
        },
        None => 2,
    }
}

} // verus!

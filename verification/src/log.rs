//! The lines of the log.

use vstd::prelude::*;

use crate::number::{decimal, pushDecimal};

verus! {

/// How much a line of the log matters.
#[derive(Clone, Copy, Debug, PartialEq, Eq, Structural)]
pub enum Level {
    Info,
    Warn,
    Error,
}

/// How a level is written.
pub open spec fn level_name(level: Level) -> Seq<char> {
    match level {
        Level::Info => "INFO"@,
        Level::Warn => "WARN"@,
        Level::Error => "ERROR"@,
    }
}

/// A line of the log: the seconds since the Unix epoch, the level and the message.
pub open spec fn log_line(now: u64, level: Level, message: Seq<char>) -> Seq<char> {
    decimal(now as nat) + " ["@ + level_name(level) + "] "@ + message
}

/// Reads the clock with `std::time::SystemTime::now`, in whole seconds since the Unix epoch; there
/// are none if the clock is set before the epoch. Nothing is claimed of the result, which depends
/// on the time.
#[verifier::external_body]
fn readClock() -> (reading: Option<u64>) {
    match std::time::SystemTime::now().duration_since(std::time::UNIX_EPOCH) {
        Ok(elapsed) => Some(elapsed.as_secs()),
        Err(_) => None,
    }
}

/// The timestamp for a reading of the clock; zero where it is set before the epoch.
pub open spec fn timestamp_of(reading: Option<u64>) -> u64 {
    match reading {
        Some(n) => n,
        None => 0,
    }
}

/// Turns a reading of the clock into a timestamp.
pub fn timestampOf(reading: Option<u64>) -> (seconds: u64)
    ensures
        seconds == timestamp_of(reading),
{
    match reading {
        Some(n) => n,
        None => 0,
    }
}

/// The time in whole seconds since the Unix epoch.
pub fn currentUnixTimestamp() -> (seconds: u64) {
    timestampOf(readClock())
}

/// Writes a line of the log.
pub fn logLine(now: u64, level: Level, message: &str) -> (line: String)
    ensures
        line@ == log_line(now, level, message@),
{
    let mut line = String::new();
    pushDecimal(&mut line, now);
    line.append(" [");
    line.append(
        match level {
            Level::Info => "INFO",
            Level::Warn => "WARN",
            Level::Error => "ERROR",
        },
    );
    line.append("] ");
    line.append(message);
    assert(line@ =~= log_line(now, level, message@));
    line
}

/// Words the lines of the log, each with the time at which it is written.
#[derive(Clone, Copy, Debug)]
pub struct Logger {}

impl Logger {
    /// Words a message that informs.
    pub fn info(&self, message: &str) -> (line: String)
        ensures
            exists|now: u64| line@ == #[trigger] log_line(now, Level::Info, message@),
    {
        self.write(Level::Info, message)
    }

    /// Words a message that warns.
    pub fn warn(&self, message: &str) -> (line: String)
        ensures
            exists|now: u64| line@ == #[trigger] log_line(now, Level::Warn, message@),
    {
        self.write(Level::Warn, message)
    }

    /// Words a message that reports an error.
    pub fn error(&self, message: &str) -> (line: String)
        ensures
            exists|now: u64| line@ == #[trigger] log_line(now, Level::Error, message@),
    {
        self.write(Level::Error, message)
    }

    /// Words a message of the given level.
    pub fn write(&self, level: Level, message: &str) -> (line: String)
        ensures
            exists|now: u64| line@ == #[trigger] log_line(now, level, message@),
    {
        logLine(currentUnixTimestamp(), level, message)
    }
}

} // verus!

//! Log levels and the filtering rule of the application logger.
use vstd::prelude::*;

verus! {

/// The severity of one log line.
#[derive(Debug, Clone, Copy, PartialEq, Eq, Structural)]
pub enum LogLevel {
    Debug,
    Info,
    Warn,
    Error,
}

impl LogLevel {
    /// The rank used to compare severities.
    pub open spec fn rank(&self) -> nat {
        match self {
            LogLevel::Debug => 0,
            LogLevel::Info => 1,
            LogLevel::Warn => 2,
            LogLevel::Error => 3,
        }
    }

    /// The fixed tag a level prints as.
    pub fn as_str(&self) -> (r: &'static str)
        ensures
            self is Debug ==> r@ == "DEBUG"@,
            self is Info ==> r@ == "INFO"@,
            self is Warn ==> r@ == "WARN"@,
            self is Error ==> r@ == "ERROR"@,
    {
        match self {
            LogLevel::Debug => "DEBUG",
            LogLevel::Info => "INFO",
            LogLevel::Warn => "WARN",
            LogLevel::Error => "ERROR",
        }
    }

    /// The numeric severity of this level.
    pub fn severity(&self) -> (r: u8)
        ensures
            r == self.rank(),
    {
        match self {
            LogLevel::Debug => 0,
            LogLevel::Info => 1,
            LogLevel::Warn => 2,
            LogLevel::Error => 3,
        }
    }
}

/// Whether a line of the given level passes a logger configured with the
/// given minimum level.
pub fn should_log(level: LogLevel, min_level: LogLevel) -> (r: bool)
    ensures
        r == (level.rank() >= min_level.rank()),
{
    level.severity() >= min_level.severity()
}

} // verus!

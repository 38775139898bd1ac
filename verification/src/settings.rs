use vstd::prelude::*;

verus! {

/// How much the emulator logs.
#[derive(Clone, Copy, Debug, PartialEq, Eq, Structural)]
pub enum LogLevel {
    Error,
    Info,
    Debug,
    Trace,
}

/// The log level picked from the command line: `--quiet` wins, otherwise each
/// `-v` raises the level from info to debug to trace.
pub fn log_level(quiet: bool, verbose: u8) -> (level: LogLevel)
    ensures
        quiet ==> level == LogLevel::Error,
        !quiet && verbose == 0 ==> level == LogLevel::Info,
        !quiet && verbose == 1 ==> level == LogLevel::Debug,
        !quiet && verbose >= 2 ==> level == LogLevel::Trace,
{
    if quiet {
        LogLevel::Error
    } else {
        match verbose {
            0 => LogLevel::Info,
            1 => LogLevel::Debug,
            _ => LogLevel::Trace,
        }
    }
}

impl LogLevel {
    /// The filter name that the logger understands.
    pub fn as_filter(self) -> (name: &'static str)
        ensures
            self == LogLevel::Error ==> name@ == "error"@,
            self == LogLevel::Info ==> name@ == "info"@,
            self == LogLevel::Debug ==> name@ == "debug"@,
            self == LogLevel::Trace ==> name@ == "trace"@,
    {
        match self {
            LogLevel::Error => "error",
            LogLevel::Info => "info",
            LogLevel::Debug => "debug",
            LogLevel::Trace => "trace",
        }
    }
}

} // verus!

use vstd::prelude::*;

verus! {

/// The level of a generic log event.
#[derive(Clone, Copy, Debug, PartialEq, Eq, Structural)]
pub enum LogLevel {
    Fatal,
    Error,
    Warn,
    Info,
    Debug,
    Verbose,
}

/// The name of a level as it appears in the log.
pub open spec fn log_level_name(l: LogLevel) -> Seq<char> {
    match l {
        LogLevel::Fatal => seq!['f', 'a', 't', 'a', 'l'],
        LogLevel::Error => seq!['e', 'r', 'r', 'o', 'r'],
        LogLevel::Warn => seq!['w', 'a', 'r', 'n'],
        LogLevel::Info => seq!['i', 'n', 'f', 'o'],
        LogLevel::Debug => seq!['d', 'e', 'b', 'u', 'g'],
        LogLevel::Verbose => seq!['v', 'e', 'r', 'b', 'o', 's', 'e'],
    }
}

impl LogLevel {
    /// The name of the level, in lower case.
    pub fn as_str(&self) -> (s: &'static str)
        ensures
            s@ == log_level_name(*self),
    {
        match self {
            LogLevel::Fatal => {
                let s = "fatal";
                proof {
                    reveal_strlit("fatal");
                }
                s
            },
            LogLevel::Error => {
                let s = "error";
                proof {
                    reveal_strlit("error");
                }
                s
            },
            LogLevel::Warn => {
                let s = "warn";
                proof {
                    reveal_strlit("warn");
                }
                s
            },
            LogLevel::Info => {
                let s = "info";
                proof {
                    reveal_strlit("info");
                }
                s
            },
            LogLevel::Debug => {
                let s = "debug";
                proof {
                    reveal_strlit("debug");
                }
                s
            },
            LogLevel::Verbose => {
                let s = "verbose";
                proof {
                    reveal_strlit("verbose");
                }
                s
            },
        }
    }
}

/// A generic log event: a message.
#[derive(Clone, Debug, PartialEq, Eq)]
pub struct LogLevelEvent {
    pub message: String,
}

} // verus!

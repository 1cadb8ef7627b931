//! The vocabulary of log events: what kind of watcher produced an event, its
//! severity, and the output format chosen by the user.

use vstd::prelude::*;

verus! {

/// The watcher that produced an event.
#[derive(Clone, Copy, Debug, PartialEq, Eq, Structural)]
pub enum EventType {
    ProcessWatch,
    NetworkWatch,
    FileWatch,
}

/// Severity of an event.
#[allow(non_camel_case_types, clippy::upper_case_acronyms)]
#[derive(Clone, Copy, Debug, PartialEq, Eq, Structural)]
pub enum LogLevel {
    INFO,
    DEBUG,
    ERROR,
    WARN,
}

/// One event as it is written to the log.
#[derive(Clone, Debug)]
pub struct LogEvent {
    pub level: LogLevel,
    pub event_type: EventType,
    pub timestamp: String,
    pub details: String,
}

/// How events are written: one JSON object each, or a block of text lines.
#[derive(Clone, Copy, Debug, PartialEq, Eq, Structural)]
pub enum LogFormat {
    Json,
    Plaintext,
}

/// The name of a severity, as the variant is spelled.
pub open spec fn level_name(level: LogLevel) -> Seq<char> {
    match level {
        LogLevel::INFO => "INFO"@,
        LogLevel::DEBUG => "DEBUG"@,
        LogLevel::ERROR => "ERROR"@,
        LogLevel::WARN => "WARN"@,
    }
}

/// The name of a watcher kind, as the variant is spelled.
pub open spec fn event_type_name(kind: EventType) -> Seq<char> {
    match kind {
        EventType::ProcessWatch => "ProcessWatch"@,
        EventType::NetworkWatch => "NetworkWatch"@,
        EventType::FileWatch => "FileWatch"@,
    }
}

impl LogLevel {
    /// The variant's name, as `{:?}` prints it.
    pub fn name(&self) -> (s: &'static str)
        ensures
            s@ == level_name(*self),
    {
        match self {
            LogLevel::INFO => "INFO",
            LogLevel::DEBUG => "DEBUG",
            LogLevel::ERROR => "ERROR",
            LogLevel::WARN => "WARN",
        }
    }
}

impl EventType {
    /// The variant's name, as `{:?}` prints it.
    pub fn name(&self) -> (s: &'static str)
        ensures
            s@ == event_type_name(*self),
    {
        match self {
            EventType::ProcessWatch => "ProcessWatch",
            EventType::NetworkWatch => "NetworkWatch",
            EventType::FileWatch => "FileWatch",
        }
    }
}

} // verus!

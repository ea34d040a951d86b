//! Log records: a severity and a message, as the text handed to whatever
//! sink the caller logs to.

use vstd::prelude::*;
use vstd::string::*;

verus! {

/// How grave a log record is, from `DEBUG` up to `FATAL`.
#[derive(Clone, Copy, Debug, PartialEq, Eq, Structural)]
pub enum LogSeverity {
    DEBUG,
    INFO,
    WARNING,
    ERROR,
    FATAL,
}

impl LogSeverity {
    /// The name of the severity, in capitals.
    pub open spec fn spec_label(self) -> Seq<char> {
        match self {
            LogSeverity::DEBUG => "DEBUG"@,
            LogSeverity::INFO => "INFO"@,
            LogSeverity::WARNING => "WARNING"@,
            LogSeverity::ERROR => "ERROR"@,
            LogSeverity::FATAL => "FATAL"@,
        }
    }

    /// The rank of the severity: 1 for `DEBUG`, 5 for `FATAL`.
    pub open spec fn spec_level(self) -> nat {
        match self {
            LogSeverity::DEBUG => 1,
            LogSeverity::INFO => 2,
            LogSeverity::WARNING => 3,
            LogSeverity::ERROR => 4,
            LogSeverity::FATAL => 5,
        }
    }

    /// The name of the severity, in capitals.
    pub fn label(&self) -> (r: &'static str)
        ensures
            r@ == self.spec_label(),
    {
        match self {
            LogSeverity::DEBUG => "DEBUG",
            LogSeverity::INFO => "INFO",
            LogSeverity::WARNING => "WARNING",
            LogSeverity::ERROR => "ERROR",
            LogSeverity::FATAL => "FATAL",
        }
    }

    /// The rank of the severity: 1 for `DEBUG`, 5 for `FATAL`.
    pub fn level(&self) -> (r: u8)
        ensures
            r == self.spec_level(),
    {
        match self {
            LogSeverity::DEBUG => 1,
            LogSeverity::INFO => 2,
            LogSeverity::WARNING => 3,
            LogSeverity::ERROR => 4,
            LogSeverity::FATAL => 5,
        }
    }
}

/// The text of a log record: severity, colon, blank, message, line feed.
pub open spec fn record_text(severity: LogSeverity, message: Seq<char>) -> Seq<char> {
    severity.spec_label() + ": "@ + message + "\n"@
}

/// Formats a log record.
pub fn format_record(severity: LogSeverity, message: &str) -> (r: String)
    ensures
        r@ == record_text(severity, message@),
{
    let mut text = String::from_str(severity.label());
    text.append(": ");
    text.append(message);
    text.append("\n");
    text
}

} // verus!

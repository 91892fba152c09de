//! Messages to whoever runs the build.

use vstd::prelude::*;

verus! {

/// How much a message matters.
#[derive(Debug, Clone, Copy, PartialEq, Eq, Structural)]
pub enum LogLevel {
    Error,
    Note,
    Debug,
    Trace,
}

/// The word that stands for `level` in front of a message.
pub open spec fn level_label(level: LogLevel) -> Seq<char> {
    match level {
        LogLevel::Error => "Error"@,
        LogLevel::Note => "Note"@,
        LogLevel::Debug => "Debug"@,
        LogLevel::Trace => "Trace"@,
    }
}

impl LogLevel {
    /// The word that stands for the level in front of a message.
    pub fn label(&self) -> (word: &'static str)
        ensures
            word@ == level_label(*self),
    {
        match self {
            LogLevel::Error => "Error",
            LogLevel::Note => "Note",
            LogLevel::Debug => "Debug",
            LogLevel::Trace => "Trace",
        }
    }
}

/// The line that a console writes for a message: the level, a colon, and
/// the message.
pub open spec fn log_line_text(level: LogLevel, message: Seq<char>) -> Seq<char> {
    level_label(level) + seq![':', ' '] + message
}

/// Renders the line that a console writes for a message.
pub fn log_line(level: LogLevel, message: &str) -> (line: String)
    ensures
        line@ == log_line_text(level, message@),
{
    let mut line = level.label().to_owned();
    line.append(": ");
    line.append(message);
    proof {
        reveal_strlit(": ");
        assert(line@ =~= log_line_text(level, message@));
    }
    line
}

/// Where the messages of a build go.
pub trait Console {
    /// Takes a message.
    fn log(&self, level: LogLevel, message: &str);
}

} // verus!

//! The severity level of one log row, with its one-letter display form and
//! the parse from a level word's first character.

use vstd::prelude::*;

verus! {

/// Severity of one log row.
#[derive(Copy, Clone, PartialEq, Eq, Structural, Debug)]
pub enum LogLevel {
    Verbose,
    Debug,
    Warning,
    Info,
    Error,
}

/// The level a character denotes, either case; any other character denotes
/// none.
pub open spec fn spec_level_of(c: char) -> Option<LogLevel> {
    if c == 'V' || c == 'v' {
        Some(LogLevel::Verbose)
    } else if c == 'D' || c == 'd' {
        Some(LogLevel::Debug)
    } else if c == 'W' || c == 'w' {
        Some(LogLevel::Warning)
    } else if c == 'I' || c == 'i' {
        Some(LogLevel::Info)
    } else if c == 'E' || c == 'e' {
        Some(LogLevel::Error)
    } else {
        None
    }
}

impl LogLevel {
    /// The one-letter display form of this level.
    pub open spec fn spec_letter(&self) -> char {
        match self {
            LogLevel::Verbose => 'V',
            LogLevel::Debug => 'D',
            LogLevel::Warning => 'W',
            LogLevel::Info => 'I',
            LogLevel::Error => 'E',
        }
    }

    /// The one-letter display form of this level.
    pub fn letter(&self) -> (r: char)
        ensures
            r == self.spec_letter(),
    {
        match self {
            LogLevel::Verbose => 'V',
            LogLevel::Debug => 'D',
            LogLevel::Warning => 'W',
            LogLevel::Info => 'I',
            LogLevel::Error => 'E',
        }
    }

    /// Parse a level from the first character of its word, upper or lower
    /// case; an empty or unrecognized word parses to nothing.
    pub fn parse(s: &str) -> (r: Option<LogLevel>)
        ensures
            r == if s@.len() == 0 {
                None::<LogLevel>
            } else {
                spec_level_of(s@[0])
            },
    {
        if s.unicode_len() == 0 {
            None
        } else {
            let c = s.get_char(0);
            match c {
                'V' | 'v' => Some(LogLevel::Verbose),
                'D' | 'd' => Some(LogLevel::Debug),
                'W' | 'w' => Some(LogLevel::Warning),
                'I' | 'i' => Some(LogLevel::Info),
                'E' | 'e' => Some(LogLevel::Error),
                _ => None,
            }
        }
    }
}

} // verus!

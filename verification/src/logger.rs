//! Log levels: which level a configured name selects, which records pass
//! the filter, where a record is printed, and how a log line reads.
use vstd::prelude::*;

use crate::text::{chars_of, owned, push_str};

verus! {

/// A log level, from the most to the least severe.
#[derive(Debug, Clone, Copy, PartialEq, Eq, PartialOrd, Ord, Structural)]
pub enum LogLevel {
    Error,
    Warn,
    Info,
    Debug,
    Trace,
}

/// Position of a level in severity order (`Error` first).
pub open spec fn rank(l: LogLevel) -> nat {
    match l {
        LogLevel::Error => 1,
        LogLevel::Warn => 2,
        LogLevel::Info => 3,
        LogLevel::Debug => 4,
        LogLevel::Trace => 5,
    }
}

/// The name of a level as printed in a log line.
pub open spec fn level_name(l: LogLevel) -> Seq<char> {
    match l {
        LogLevel::Error => "ERROR"@,
        LogLevel::Warn => "WARN"@,
        LogLevel::Info => "INFO"@,
        LogLevel::Debug => "DEBUG"@,
        LogLevel::Trace => "TRACE"@,
    }
}

/// The ASCII lowercase of `c`.
pub open spec fn ascii_lower(c: char) -> char {
    if 'A' <= c <= 'Z' {
        ((c as u32) + 32) as char
    } else {
        c
    }
}

/// The level a configured name selects: `trace`, `debug`, `warn` or
/// `error` in any ASCII case; anything else selects `info`.
pub open spec fn level_for_name(name: Seq<char>) -> LogLevel {
    let l = name.map_values(|c: char| ascii_lower(c));
    if l == "trace"@ {
        LogLevel::Trace
    } else if l == "debug"@ {
        LogLevel::Debug
    } else if l == "warn"@ {
        LogLevel::Warn
    } else if l == "error"@ {
        LogLevel::Error
    } else {
        LogLevel::Info
    }
}

/// `s` in ASCII lowercase.
fn to_ascii_lowercase(s: &str) -> (r: Vec<char>)
    ensures
        r@ == s@.map_values(|c: char| ascii_lower(c)),
{
    let v = chars_of(s);
    let mut r: Vec<char> = Vec::new();
    let mut i: usize = 0;
    while i < v.len()
        invariant
            i <= v.len(),
            r@ == v@.take(i as int).map_values(|c: char| ascii_lower(c)),
        decreases v.len() - i,
    {
        let c = v[i];
        let l = if 'A' <= c && c <= 'Z' {
            ((c as u32) + 32) as u8 as char
        } else {
            c
        };
        r.push(l);
        assert(v@.take(i + 1).map_values(|c: char| ascii_lower(c)) =~= v@.take(i as int).map_values(
            |c: char| ascii_lower(c),
        ).push(ascii_lower(c)));
        i = i + 1;
    }
    assert(v@.take(i as int) =~= v@);
    r
}

impl LogLevel {
    /// The level that the configured name `name` selects.
    pub fn from_name(name: &str) -> (r: LogLevel)
        ensures
            r == level_for_name(name@),
    {
        let l = to_ascii_lowercase(name);
        let s = crate::text::string_of(&l, 0, l.len());
        assert(l@.subrange(0, l@.len() as int) == l@);
        if crate::text::str_eq(s.as_str(), "trace") {
            LogLevel::Trace
        } else if crate::text::str_eq(s.as_str(), "debug") {
            LogLevel::Debug
        } else if crate::text::str_eq(s.as_str(), "warn") {
            LogLevel::Warn
        } else if crate::text::str_eq(s.as_str(), "error") {
            LogLevel::Error
        } else {
            LogLevel::Info
        }
    }

    /// Whether `self` is at most as verbose as `other`.
    pub fn at_most(&self, other: &LogLevel) -> (r: bool)
        ensures
            r == (rank(*self) <= rank(*other)),
    {
        self.rank() <= other.rank()
    }

    fn rank(&self) -> (r: u8)
        ensures
            r == rank(*self),
    {
        match self {
            LogLevel::Error => 1,
            LogLevel::Warn => 2,
            LogLevel::Info => 3,
            LogLevel::Debug => 4,
            LogLevel::Trace => 5,
        }
    }

    /// Whether a record of level `self` passes a filter set to `filter`.
    pub fn enabled_under(&self, filter: &LogLevel) -> (r: bool)
        ensures
            r == (rank(*self) <= rank(*filter)),
    {
        self.at_most(filter)
    }

    /// Whether a record of level `self` goes to standard error (warnings and
    /// errors) rather than standard output.
    pub fn to_stderr(&self) -> (r: bool)
        ensures
            r == (rank(*self) <= rank(LogLevel::Warn)),
    {
        self.at_most(&LogLevel::Warn)
    }

    /// The level's name as printed in a log line.
    pub fn name(&self) -> (r: &'static str)
        ensures
            r@ == level_name(*self),
    {
        match self {
            LogLevel::Error => "ERROR",
            LogLevel::Warn => "WARN",
            LogLevel::Info => "INFO",
            LogLevel::Debug => "DEBUG",
            LogLevel::Trace => "TRACE",
        }
    }
}

/// A log line: `[timestamp][LEVEL] message`.
pub fn log_line(timestamp: &str, level: LogLevel, message: &str) -> (r: String)
    ensures
        r@ == "["@ + timestamp@ + "]["@ + level_name(level) + "] "@ + message@,
{
    let mut r = owned("[");
    push_str(&mut r, timestamp);
    push_str(&mut r, "][");
    push_str(&mut r, level.name());
    push_str(&mut r, "] ");
    push_str(&mut r, message);
    r
}


/// The five level names differ (each starts with its own letter).
proof fn lemma_level_names_differ()
    ensures
        "trace"@ != "debug"@,
        "trace"@ != "info"@,
        "trace"@ != "warn"@,
        "trace"@ != "error"@,
        "debug"@ != "info"@,
        "debug"@ != "warn"@,
        "debug"@ != "error"@,
        "warn"@ != "info"@,
        "warn"@ != "error"@,
        "error"@ != "info"@,
{
    reveal_strlit("trace");
    reveal_strlit("debug");
    reveal_strlit("info");
    reveal_strlit("warn");
    reveal_strlit("error");
    assert("trace"@[0] == 't');
    assert("debug"@[0] == 'd');
    assert("info"@[0] == 'i');
    assert("warn"@[0] == 'w');
    assert("error"@[0] == 'e');
}

/// Each level is selected by its own name in any ASCII case: a configured
/// name that reads `trace`, `debug`, `info`, `warn` or `error` once its ASCII
/// letters are lowered selects that level.
pub proof fn law_level_names(name: Seq<char>)
    ensures
        name.map_values(|c: char| ascii_lower(c)) == "trace"@ ==> level_for_name(name) == LogLevel::Trace,
        name.map_values(|c: char| ascii_lower(c)) == "debug"@ ==> level_for_name(name) == LogLevel::Debug,
        name.map_values(|c: char| ascii_lower(c)) == "info"@ ==> level_for_name(name) == LogLevel::Info,
        name.map_values(|c: char| ascii_lower(c)) == "warn"@ ==> level_for_name(name) == LogLevel::Warn,
        name.map_values(|c: char| ascii_lower(c)) == "error"@ ==> level_for_name(name) == LogLevel::Error,
{
    lemma_level_names_differ();
}

/// The name a log line prints for a level selects that level again:
/// `DEBUG` selects `Debug`, and so on for every level.
pub proof fn law_printed_name_selects_level(l: LogLevel)
    ensures
        level_for_name(level_name(l)) == l,
{
    lemma_level_names_differ();
    reveal_strlit("ERROR");
    reveal_strlit("WARN");
    reveal_strlit("INFO");
    reveal_strlit("DEBUG");
    reveal_strlit("TRACE");
    reveal_strlit("error");
    reveal_strlit("warn");
    reveal_strlit("info");
    reveal_strlit("debug");
    reveal_strlit("trace");
    let low = level_name(l).map_values(|c: char| ascii_lower(c));
    match l {
        LogLevel::Error => {
            assert(low =~= "error"@);
        },
        LogLevel::Warn => {
            assert(low =~= "warn"@);
        },
        LogLevel::Info => {
            assert(low =~= "info"@);
        },
        LogLevel::Debug => {
            assert(low =~= "debug"@);
        },
        LogLevel::Trace => {
            assert(low =~= "trace"@);
        },
    }
}

} // verus!

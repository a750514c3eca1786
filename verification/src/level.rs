//! Log levels: case-insensitive parsing and the generation-time clamp.

use vstd::prelude::*;

verus! {

/// The five logging levels a declaration may configure, ordered from the
/// most verbose (`Trace`) to the least verbose (`Error`).
#[derive(Clone, Copy, Debug, PartialEq, Eq, Structural)]
pub enum LogLevel {
    Trace,
    Debug,
    Info,
    Warn,
    Error,
}

/// ASCII lowercase folding of a single character; characters outside
/// `'A'..='Z'` are unchanged.
pub open spec fn lower_char(c: char) -> char {
    if c == 'A' {
        'a'
    } else if c == 'B' {
        'b'
    } else if c == 'C' {
        'c'
    } else if c == 'D' {
        'd'
    } else if c == 'E' {
        'e'
    } else if c == 'F' {
        'f'
    } else if c == 'G' {
        'g'
    } else if c == 'H' {
        'h'
    } else if c == 'I' {
        'i'
    } else if c == 'J' {
        'j'
    } else if c == 'K' {
        'k'
    } else if c == 'L' {
        'l'
    } else if c == 'M' {
        'm'
    } else if c == 'N' {
        'n'
    } else if c == 'O' {
        'o'
    } else if c == 'P' {
        'p'
    } else if c == 'Q' {
        'q'
    } else if c == 'R' {
        'r'
    } else if c == 'S' {
        's'
    } else if c == 'T' {
        't'
    } else if c == 'U' {
        'u'
    } else if c == 'V' {
        'v'
    } else if c == 'W' {
        'w'
    } else if c == 'X' {
        'x'
    } else if c == 'Y' {
        'y'
    } else if c == 'Z' {
        'z'
    } else {
        c
    }
}

/// ASCII lowercase folding of a whole character sequence.
pub open spec fn lower_seq(s: Seq<char>) -> Seq<char> {
    s.map_values(|c: char| lower_char(c))
}

/// The level named by `s`, compared case-insensitively; `None` when `s`
/// names no level.
pub open spec fn spec_parse_level(s: Seq<char>) -> Option<LogLevel> {
    if lower_seq(s) == "trace"@ {
        Some(LogLevel::Trace)
    } else if lower_seq(s) == "debug"@ {
        Some(LogLevel::Debug)
    } else if lower_seq(s) == "info"@ {
        Some(LogLevel::Info)
    } else if lower_seq(s) == "warn"@ {
        Some(LogLevel::Warn)
    } else if lower_seq(s) == "error"@ {
        Some(LogLevel::Error)
    } else {
        None
    }
}

/// The level actually used as the active filter floor: anything more
/// verbose than `Debug` (that is, `Trace`) is raised to `Debug`; all other
/// levels pass through unchanged.
pub open spec fn clamped(l: LogLevel) -> LogLevel {
    if l is Trace {
        LogLevel::Debug
    } else {
        l
    }
}

/// The configured level of `Trace` results in an active floor of `Debug`,
/// while `Debug`, `Info`, `Warn` and `Error` pass through unclamped.
pub proof fn lemma_level_clamp()
    ensures
        clamped(LogLevel::Trace) == LogLevel::Debug,
        forall|l: LogLevel| l != LogLevel::Trace ==> #[trigger] clamped(l) == l,
{
}

impl LogLevel {
    /// Executable form of [`clamped`].
    pub fn effective(self) -> (r: LogLevel)
        ensures
            r == clamped(self),
    {
        match self {
            LogLevel::Trace => LogLevel::Debug,
            other => other,
        }
    }

    /// The upper-case name of the level, as it is spelled in generated code.
    pub open spec fn spec_name(self) -> Seq<char> {
        match self {
            LogLevel::Trace => "TRACE"@,
            LogLevel::Debug => "DEBUG"@,
            LogLevel::Info => "INFO"@,
            LogLevel::Warn => "WARN"@,
            LogLevel::Error => "ERROR"@,
        }
    }

    /// Executable form of [`LogLevel::spec_name`].
    pub fn name(self) -> (r: &'static str)
        ensures
            r@ == self.spec_name(),
    {
        match self {
            LogLevel::Trace => "TRACE",
            LogLevel::Debug => "DEBUG",
            LogLevel::Info => "INFO",
            LogLevel::Warn => "WARN",
            LogLevel::Error => "ERROR",
        }
    }
}

fn lower_char_exec(c: char) -> (r: char)
    ensures
        r == lower_char(c),
{
    match c {
        'A' => 'a',
        'B' => 'b',
        'C' => 'c',
        'D' => 'd',
        'E' => 'e',
        'F' => 'f',
        'G' => 'g',
        'H' => 'h',
        'I' => 'i',
        'J' => 'j',
        'K' => 'k',
        'L' => 'l',
        'M' => 'm',
        'N' => 'n',
        'O' => 'o',
        'P' => 'p',
        'Q' => 'q',
        'R' => 'r',
        'S' => 's',
        'T' => 't',
        'U' => 'u',
        'V' => 'v',
        'W' => 'w',
        'X' => 'x',
        'Y' => 'y',
        'Z' => 'z',
        other => other,
    }
}

/// Case-insensitive string comparison under ASCII lowercase folding.
fn eq_fold(a: &str, b: &str) -> (r: bool)
    ensures
        r == (lower_seq(a@) == lower_seq(b@)),
{
    let na: usize = a.unicode_len();
    let nb: usize = b.unicode_len();
    if na != nb {
        proof {
            assert(lower_seq(a@).len() != lower_seq(b@).len());
        }
        return false;
    }
    let mut i: usize = 0;
    while i < na
        invariant
            na == a@.len(),
            na == b@.len(),
            i <= na,
            forall|j: int| 0 <= j < i ==> lower_char(a@[j]) == lower_char(b@[j]),
        decreases na - i,
    {
        let ca = lower_char_exec(a.get_char(i));
        let cb = lower_char_exec(b.get_char(i));
        if ca != cb {
            proof {
                assert(lower_seq(a@)[i as int] != lower_seq(b@)[i as int]);
            }
            return false;
        }
        i = i + 1;
    }
    proof {
        assert(lower_seq(a@) =~= lower_seq(b@));
    }
    true
}

/// Parses a log-level name, case-insensitively: executable form of
/// [`spec_parse_level`].
pub fn parse_level(s: &str) -> (r: Option<LogLevel>)
    ensures
        r == spec_parse_level(s@),
{
    proof {
        reveal_strlit("trace");
        reveal_strlit("debug");
        reveal_strlit("info");
        reveal_strlit("warn");
        reveal_strlit("error");
        assert(lower_seq("trace"@) =~= "trace"@);
        assert(lower_seq("debug"@) =~= "debug"@);
        assert(lower_seq("info"@) =~= "info"@);
        assert(lower_seq("warn"@) =~= "warn"@);
        assert(lower_seq("error"@) =~= "error"@);
    }
    if eq_fold(s, "trace") {
        Some(LogLevel::Trace)
    } else if eq_fold(s, "debug") {
        Some(LogLevel::Debug)
    } else if eq_fold(s, "info") {
        Some(LogLevel::Info)
    } else if eq_fold(s, "warn") {
        Some(LogLevel::Warn)
    } else if eq_fold(s, "error") {
        Some(LogLevel::Error)
    } else {
        None
    }
}

/// Character-by-character string equality.
pub fn str_eq(a: &str, b: &str) -> (r: bool)
    ensures
        r == (a@ == b@),
{
    let na: usize = a.unicode_len();
    let nb: usize = b.unicode_len();
    if na != nb {
        proof {
            assert(a@ != b@) by {
                assert(a@.len() != b@.len());
            }
        }
        return false;
    }
    let mut i: usize = 0;
    while i < na
        invariant
            na == a@.len(),
            na == b@.len(),
            i <= na,
            forall|j: int| 0 <= j < i ==> a@[j] == b@[j],
        decreases na - i,
    {
        if a.get_char(i) != b.get_char(i) {
            return false;
        }
        i = i + 1;
    }
    proof {
        assert(a@ =~= b@);
    }
    true
}

} // verus!

use vstd::prelude::*;

use crate::text::{contains, lower_of, lowercase, occurs_in, same_text};

verus! {

/// Character sequence used for newlines.
///
/// `SystemDefault` is a request rather than a sequence: it stands for the
/// newline convention of the input document, or, where the document has
/// none, for the host's (LF, or CRLF on Windows-family hosts).
#[derive(Clone, Copy, Debug, PartialEq, Eq, Structural)]
pub enum LineEnding {
    SystemDefault,
    Cr,
    Lf,
    CrLf,
}

/// The characters written for a concrete line ending.
pub open spec fn newline_of(le: LineEnding) -> Seq<char> {
    match le {
        LineEnding::Cr => seq!['\r'],
        LineEnding::Lf => seq!['\n'],
        LineEnding::CrLf => seq!['\r', '\n'],
        LineEnding::SystemDefault => seq![],
    }
}

/// A line ending that names a character sequence.
pub open spec fn is_concrete(le: LineEnding) -> bool {
    !(le is SystemDefault)
}

/// The line ending a document uses, CRLF taking precedence over LF, and LF
/// over CR; `SystemDefault` where the document holds no newline.
pub open spec fn detected(s: Seq<char>) -> LineEnding {
    if occurs_in(s, seq!['\r', '\n']) {
        LineEnding::CrLf
    } else if occurs_in(s, seq!['\n']) {
        LineEnding::Lf
    } else if occurs_in(s, seq!['\r']) {
        LineEnding::Cr
    } else {
        LineEnding::SystemDefault
    }
}

/// The concrete line ending used for `input` when `requested` is asked for
/// and `host` is the host's default.
pub open spec fn resolved(requested: LineEnding, input: Seq<char>, host: LineEnding) -> LineEnding {
    if is_concrete(requested) {
        requested
    } else if is_concrete(detected(input)) {
        detected(input)
    } else {
        host
    }
}

/// Every line break of `s` is the sequence `nl`: read from the start, `s`
/// is made of copies of `nl` and of characters that are neither CR nor LF.
pub open spec fn breaks_are(s: Seq<char>, nl: Seq<char>) -> bool
    decreases s.len(),
{
    if s.len() == 0 {
        true
    } else if s[0] != '\n' && s[0] != '\r' {
        breaks_are(s.drop_first(), nl)
    } else {
        0 < nl.len() <= s.len() && s.take(nl.len() as int) == nl && breaks_are(
            s.skip(nl.len() as int),
            nl,
        )
    }
}

/// `s` with each LF replaced by CR.
pub open spec fn lf_to_cr(s: Seq<char>) -> Seq<char> {
    Seq::new(s.len(), |i: int| if s[i] == '\n' { '\r' } else { s[i] })
}

/// The line ending named by a lower-cased option value.
pub open spec fn named(lowered: Seq<char>) -> LineEnding {
    if lowered == seq!['c', 'r'] {
        LineEnding::Cr
    } else if lowered == seq!['l', 'f'] {
        LineEnding::Lf
    } else if lowered == seq!['c', 'r', 'l', 'f'] {
        LineEnding::CrLf
    } else {
        LineEnding::SystemDefault
    }
}

/// Relies on `std::path::MAIN_SEPARATOR`, the path separator of the host
/// platform, which is a backslash exactly on Windows-family hosts.
#[verifier::external_body]
fn main_separator() -> char {
    std::path::MAIN_SEPARATOR
}

/// The newline convention of a platform with the given path separator:
/// CRLF where it is a backslash (the Windows family), LF elsewhere.
pub open spec fn default_for(separator: char) -> LineEnding {
    if separator == '\\' {
        LineEnding::CrLf
    } else {
        LineEnding::Lf
    }
}

/// The newline convention of a platform with the given path separator (see
/// `default_for`).
pub fn default_for_separator(separator: char) -> (r: LineEnding)
    ensures
        r == default_for(separator),
{
    if separator == '\\' {
        LineEnding::CrLf
    } else {
        LineEnding::Lf
    }
}

/// The host's newline convention: CRLF on Windows-family hosts, LF elsewhere.
pub fn host_default() -> (r: LineEnding)
    ensures
        r is Lf || r is CrLf,
{
    default_for_separator(main_separator())
}

impl LineEnding {
    /// Reads an option value, ignoring case: "cr", "lf" and "crlf" name a
    /// line ending, anything else asks for the system default.
    pub fn from_str(s: &str) -> (r: Result<LineEnding, std::string::ParseError>)
        ensures
            r == Ok::<LineEnding, std::string::ParseError>(named(lower_of(s@))),
    {
        let lowered = lowercase(s);
        let l = lowered.as_str();
        proof {
            reveal_strlit("cr");
            reveal_strlit("lf");
            reveal_strlit("crlf");
            assert("cr"@ =~= seq!['c', 'r']);
            assert("lf"@ =~= seq!['l', 'f']);
            assert("crlf"@ =~= seq!['c', 'r', 'l', 'f']);
        }
        let result = if same_text(l, "cr") {
            LineEnding::Cr
        } else if same_text(l, "lf") {
            LineEnding::Lf
        } else if same_text(l, "crlf") {
            LineEnding::CrLf
        } else {
            LineEnding::SystemDefault
        };
        Ok(result)
    }

    /// The newline characters; for `SystemDefault`, those of the host.
    pub fn as_str(&self) -> (r: &'static str)
        ensures
            is_concrete(*self) ==> r@ == newline_of(*self),
            !is_concrete(*self) ==> r@ == newline_of(LineEnding::Lf) || r@ == newline_of(
                LineEnding::CrLf,
            ),
    {
        proof {
            reveal_strlit("\r");
            reveal_strlit("\n");
            reveal_strlit("\r\n");
        }
        match self {
            LineEnding::Cr => "\r",
            LineEnding::Lf => "\n",
            LineEnding::CrLf => "\r\n",
            LineEnding::SystemDefault => self.get_default_str(),
        }
    }

    /// The line ending that `s` uses: CRLF if it holds one, else LF if it
    /// holds one, else CR if it holds one, else `SystemDefault`.
    pub fn parse_str(s: &str) -> (r: LineEnding)
        ensures
            r == detected(s@),
    {
        if contains(s, LineEnding::CrLf.as_str()) {
            LineEnding::CrLf
        } else if contains(s, LineEnding::Lf.as_str()) {
            LineEnding::Lf
        } else if contains(s, LineEnding::Cr.as_str()) {
            LineEnding::Cr
        } else {
            LineEnding::SystemDefault
        }
    }

    /// The concrete line ending to write for `input`: the requested one if
    /// it is concrete, else the one `input` uses, else `host`.
    pub fn resolve(&self, input: &str, host: LineEnding) -> (r: LineEnding)
        requires
            is_concrete(host),
        ensures
            r == resolved(*self, input@, host),
            is_concrete(r),
    {
        match self {
            LineEnding::SystemDefault => {
                let found = LineEnding::parse_str(input);
                match found {
                    LineEnding::SystemDefault => host,
                    _ => found,
                }
            },
            _ => *self,
        }
    }

    fn get_default_str(&self) -> (r: &'static str)
        ensures
            r@ == newline_of(LineEnding::Lf) || r@ == newline_of(LineEnding::CrLf),
    {
        proof {
            reveal_strlit("\n");
            reveal_strlit("\r\n");
        }
        match host_default() {
            LineEnding::CrLf => "\r\n",
            _ => "\n",
        }
    }
}

} // verus!

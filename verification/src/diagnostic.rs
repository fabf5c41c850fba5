//! Diagnostics: what the scanner records of each malformed unit of source text.

use vstd::prelude::*;
use vstd::string::*;
use crate::text::{decimal_text, push_decimal};

verus! {

/// The ways in which a unit of source text can be malformed.
#[derive(Clone, Copy, PartialEq, Eq, Structural, Debug)]
pub enum ErrorKind {
    /// A character that begins no token.
    UnexpectedCharacter(char),
    /// A string literal without its closing quote.
    UnterminatedString,
}

impl ErrorKind {
    /// The sentence that describes the error.
    pub open spec fn description(self) -> Seq<char> {
        match self {
            ErrorKind::UnexpectedCharacter(c) => "Unexpected character: "@.push(c),
            ErrorKind::UnterminatedString => "Unterminated string."@,
        }
    }
}

/// One malformed unit of source text.
#[derive(Clone, Copy, PartialEq, Eq, Structural, Debug)]
pub struct Diagnostic {
    /// The one-based line of the offending position.
    pub line: usize,
    /// The offending position, counted in characters from the start of the
    /// source: that of the unexpected character, or the end of the source
    /// where a string was left open.
    pub offset: usize,
    /// What is wrong there.
    pub kind: ErrorKind,
}

/// The mathematical content of a `Diagnostic`.
pub struct DiagnosticView {
    pub line: nat,
    pub offset: nat,
    pub kind: ErrorKind,
}

impl DiagnosticView {
    /// The line of text that reports the diagnostic.
    pub open spec fn message(self) -> Seq<char> {
        "[line "@ + decimal_text(self.line) + "] Error: "@ + self.kind.description()
    }
}

impl View for Diagnostic {
    type V = DiagnosticView;

    open spec fn view(&self) -> DiagnosticView {
        DiagnosticView { line: self.line as nat, offset: self.offset as nat, kind: self.kind }
    }
}

impl DeepView for Diagnostic {
    type V = DiagnosticView;

    open spec fn deep_view(&self) -> DiagnosticView {
        self@
    }
}

impl Diagnostic {
    /// Renders the line of text that reports the diagnostic.
    pub fn message(&self) -> (r: String)
        ensures
            r@ == self@.message(),
    {
        let mut out = String::from_str("[line ");
        push_decimal(&mut out, self.line);
        out.append("] Error: ");
        match self.kind {
            ErrorKind::UnexpectedCharacter(c) => {
                out.append("Unexpected character: ");
                out.push(c);
            },
            ErrorKind::UnterminatedString => {
                out.append("Unterminated string.");
            },
        }
        assert(out@ =~= self@.message());
        out
    }
}

} // verus!

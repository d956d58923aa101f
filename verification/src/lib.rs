//! A lexical scanner for a small scripting language: it turns one chunk of
//! source text into an ordered, end-marked sequence of classified tokens,
//! attributing a line number to each, and records lexical errors without
//! ever halting the scan.

use vstd::prelude::*;

pub mod scanner;

verus! {

/// One lexical error: the line on which it was found and the offending byte.
#[derive(Debug, Clone, Copy, PartialEq, Eq, Structural)]
pub struct Diagnostic {
    pub line: usize,
    pub ch: u8,
}

/// Ghost form of a diagnostic, with an unbounded line number.
#[verifier::ext_equal]
pub ghost struct SpecDiag {
    pub line: int,
    pub ch: u8,
}

impl View for Diagnostic {
    type V = SpecDiag;

    open spec fn view(&self) -> SpecDiag {
        SpecDiag { line: self.line as int, ch: self.ch }
    }
}

/// The error report for one run: the scanner records lexical errors here
/// instead of printing them, and the caller reads the report once the scan
/// is over. The scanner itself never owns the error flag.
pub struct Lox {
    pub had_error: bool,
    pub diagnostics: Vec<Diagnostic>,
}

impl Lox {
    /// A fresh report: no errors seen yet.
    pub fn new() -> (r: Self)
        ensures
            !r.had_error,
            r.diagnostics@ == Seq::<Diagnostic>::empty(),
    {
        Lox { had_error: false, diagnostics: Vec::new() }
    }

    /// Record one lexical error; the report only ever grows.
    pub fn error(&mut self, line: usize, ch: u8)
        ensures
            final(self).had_error,
            final(self).diagnostics@ == old(self).diagnostics@.push((Diagnostic { line, ch })),
    {
        self.had_error = true;
        self.diagnostics.push(Diagnostic { line, ch });
    }
}

impl Default for Lox {
    fn default() -> (r: Self)
        ensures
            !r.had_error,
            r.diagnostics@ == Seq::<Diagnostic>::empty(),
    {
        Lox::new()
    }
}

} // verus!

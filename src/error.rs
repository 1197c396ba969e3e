//! The error reported for malformed source text.
use vstd::prelude::*;

use crate::text::string_of;

verus! {

/// What was wrong with a source line.
#[derive(Clone, Copy, Debug, PartialEq, Eq, Structural)]
pub enum ErrorKind {
    /// A label line without its `(` or `)`.
    InvalidLabel,
    /// A destination other than the seven register combinations.
    InvalidDestination,
    /// A jump condition other than the seven mnemonics.
    InvalidJump,
    /// A computation other than the 28 recognized spellings.
    InvalidComputation,
    /// A push or pop naming an unknown memory segment.
    InvalidSegment,
    /// An unknown leading mnemonic in intermediate code.
    InvalidInstruction,
    /// An intermediate instruction lacking a required operand.
    MissingOperand,
    /// An operand that is not an unsigned 16-bit decimal number.
    InvalidNumber,
    /// A pointer-segment offset other than 0 or 1.
    InvalidPointer,
}

/// A syntax error: its kind, the 1-based line it was found on, and the offending text.
#[derive(Clone, Debug)]
pub struct SyntaxError {
    pub kind: ErrorKind,
    pub line: usize,
    pub text: String,
}

impl SyntaxError {
    /// The error of kind `kind` found on line `line` in the text `text`.
    pub fn new(kind: ErrorKind, line: usize, text: &Vec<char>) -> (r: SyntaxError)
        ensures
            r@ == (kind, line, text@),
    {
        SyntaxError { kind, line, text: string_of(text) }
    }
}

impl View for SyntaxError {
    type V = (ErrorKind, usize, Seq<char>);

    open spec fn view(&self) -> (ErrorKind, usize, Seq<char>) {
        (self.kind, self.line, self.text@)
    }
}

} // verus!

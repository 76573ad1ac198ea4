use vstd::prelude::*;

verus! {

/// The category of token that was required where a parse stopped.
#[derive(Clone, Copy, Debug, PartialEq, Eq, Structural)]
pub enum ParseErrorKind {
    /// A specific punctuation character (`,`, `:`, `{` or `}`).
    Char,
    /// The keyword `struct`.
    Keyword,
    /// An identifier.
    Identifier,
    /// The label of a primitive type.
    Primitive,
}

/// Where a parse stopped and what was required there, over plain sequences.
pub struct Mismatch {
    /// The input from the point of the mismatch to its end.
    pub at: Seq<char>,
    pub kind: ParseErrorKind,
}

/// A recoverable parse failure: it consumes nothing, and carries the
/// unconsumed input from the point where the required token was missing.
#[derive(Clone, Copy, Debug, PartialEq, Eq)]
pub struct ParseError<'a> {
    pub input: &'a str,
    pub kind: ParseErrorKind,
}

impl<'a> View for ParseError<'a> {
    type V = Mismatch;

    open spec fn view(&self) -> Mismatch {
        Mismatch { at: self.input@, kind: self.kind }
    }
}

} // verus!

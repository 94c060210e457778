//! Why a pattern was rejected.

use vstd::prelude::*;

verus! {

/// What the parser asks for where it wants a hexadecimal digit.
pub const HEX_DIGIT: &'static str = "a hex digit";

/// What the parser asks for where it wants a sub-delimiter.
pub const SUB_DELIMITER: &'static str = "a sub delimiter";

/// What the parser asks for where the name of a parameter must start.
pub const LETTER: &'static str = "an ASCII letter";

/// A violation of the pattern grammar. Every position is a 0-based byte offset
/// into the input, and is that of the byte that was refused: the length of the
/// input where it ended too early.
#[derive(Debug, PartialEq)]
#[allow(inconsistent_fields)]
pub enum ParseError {
    /// One particular byte was wanted and another was found.
    ExpectedExact { expected: u8, actual: u8, pos: usize },
    /// A byte of the class that `expected` describes was wanted.
    Expected { expected: &'static str, actual: u8, pos: usize },
    /// The input ended where a byte was wanted.
    EndOfStream { pos: usize },
    /// The pattern does not start with a single `/`.
    IsNotAbsolute,
}

} // verus!

use vstd::prelude::*;

verus! {

#[derive(Debug, Clone, Copy, PartialEq, Eq, Structural)]
pub enum ParserError {
    /// The tokens are not a program.
    Syntax,
    /// The input is too long for its places to be counted.
    TooLong,
}

} // verus!

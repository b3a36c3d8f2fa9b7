use crate::common::{Ident, Value};
use vstd::prelude::*;

verus! {

#[derive(Debug, Clone, Copy, PartialEq, Eq, Structural)]
pub enum TypInterpreterError {
    /// A call of a function that the program does not have.
    FunctionDoesNotExist(Ident),
    /// An access to a field at an address that was not allocated.
    UnallocatedMemory(Value),
    /// A division by zero, or one whose quotient does not fit.
    DivisionError,
    /// The run took more steps than it was given.
    OutOfFuel,
    /// The addresses are used up.
    OutOfMemory,
}

} // verus!

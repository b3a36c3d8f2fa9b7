use crate::common::{Ident, Value};
use crate::rtl::structure::label::Label;
use vstd::prelude::*;

verus! {

#[derive(Debug, Clone, Copy, PartialEq, Eq, Structural)]
pub enum RtlInterpreterError {
    /// A call of a function that the program does not have.
    FunctionDoesNotExist(Ident),
    /// Control reaches a label that has no instruction.
    NoSuchInstruction(Label),
    /// A load or a store at an address that was not allocated.
    UnallocatedMemory(Value),
    /// A division by zero, or one whose quotient does not fit.
    DivisionError,
    /// The run took more steps than it was given.
    OutOfFuel,
    /// What a well-formed run does not meet: a function asked for by a place
    /// that the program does not have, a call stepped as a plain
    /// instruction, or addresses used up.
    Other,
}

} // verus!

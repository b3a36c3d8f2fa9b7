use crate::rtl::structure::register::PseudoRegister;
use vstd::prelude::*;

verus! {

/// A register of the ERTL and of the analyses: abstract or of the machine.
#[derive(Clone, Copy, Debug, Hash, PartialEq, Eq, PartialOrd, Ord, Structural)]
pub enum Register {
    Pseudo(PseudoRegister),
    Physical(PhysicalRegister),
}

#[derive(Clone, Copy, Debug, Hash, PartialEq, Eq, PartialOrd, Ord, Structural)]
pub enum PhysicalRegister {
    Rax,
    Rdi,
    Rdx,
    Rbp,
    Rsi,
    Rcx,
    Rsp,
    Rbx,
    R8,
    R9,
    R10,
    R11,
    R12,
    R13,
    R14,
    R15,
}

/// The registers that carry the first six arguments, in order.
pub open spec fn parameters() -> Seq<PhysicalRegister> {
    seq![
        PhysicalRegister::Rdi,
        PhysicalRegister::Rsi,
        PhysicalRegister::Rdx,
        PhysicalRegister::Rcx,
        PhysicalRegister::R8,
        PhysicalRegister::R9,
    ]
}

/// The registers that a call may overwrite.
pub open spec fn caller_saved() -> Seq<PhysicalRegister> {
    seq![
        PhysicalRegister::Rax,
        PhysicalRegister::Rdi,
        PhysicalRegister::Rsi,
        PhysicalRegister::Rdx,
        PhysicalRegister::Rcx,
        PhysicalRegister::R8,
        PhysicalRegister::R9,
    ]
}

/// The registers that a function must hand back as it found them.
pub open spec fn callee_saved() -> Seq<PhysicalRegister> {
    seq![
        PhysicalRegister::Rbx,
        PhysicalRegister::R12,
        PhysicalRegister::R13,
        PhysicalRegister::R14,
        PhysicalRegister::R15,
    ]
}

/// The registers that coloring may hand out: the caller-saved ones, then the
/// callee-saved ones.
pub open spec fn allocatable() -> Seq<PhysicalRegister> {
    seq![
        PhysicalRegister::Rax,
        PhysicalRegister::Rdi,
        PhysicalRegister::Rsi,
        PhysicalRegister::Rdx,
        PhysicalRegister::Rcx,
        PhysicalRegister::R8,
        PhysicalRegister::R9,
        PhysicalRegister::Rbx,
        PhysicalRegister::R12,
        PhysicalRegister::R13,
        PhysicalRegister::R14,
        PhysicalRegister::R15,
    ]
}

/// The register in which a function hands back its result.
pub const RESULT: PhysicalRegister = PhysicalRegister::Rax;

/// First scratch register, kept out of coloring.
pub const TMP_1: PhysicalRegister = PhysicalRegister::R10;

/// Second scratch register, kept out of coloring.
pub const TMP_2: PhysicalRegister = PhysicalRegister::R11;

pub const PARAMETER_COUNT: usize = 6;

pub const CALLER_SAVED_COUNT: usize = 7;

pub const CALLEE_SAVED_COUNT: usize = 5;

pub const ALLOCATABLE_COUNT: usize = 12;

/// The `index`-th argument register.
pub fn parameter(index: usize) -> (r: PhysicalRegister)
    requires
        index < PARAMETER_COUNT,
    ensures
        r == parameters()[index as int],
{
    if index == 0 {
        PhysicalRegister::Rdi
    } else if index == 1 {
        PhysicalRegister::Rsi
    } else if index == 2 {
        PhysicalRegister::Rdx
    } else if index == 3 {
        PhysicalRegister::Rcx
    } else if index == 4 {
        PhysicalRegister::R8
    } else {
        PhysicalRegister::R9
    }
}

/// The `index`-th caller-saved register.
pub fn caller_save(index: usize) -> (r: PhysicalRegister)
    requires
        index < CALLER_SAVED_COUNT,
    ensures
        r == caller_saved()[index as int],
{
    if index == 0 {
        PhysicalRegister::Rax
    } else {
        parameter(index - 1)
    }
}

/// The `index`-th callee-saved register.
pub fn callee_save(index: usize) -> (r: PhysicalRegister)
    requires
        index < CALLEE_SAVED_COUNT,
    ensures
        r == callee_saved()[index as int],
{
    if index == 0 {
        PhysicalRegister::Rbx
    } else if index == 1 {
        PhysicalRegister::R12
    } else if index == 2 {
        PhysicalRegister::R13
    } else if index == 3 {
        PhysicalRegister::R14
    } else {
        PhysicalRegister::R15
    }
}

/// The `index`-th register that coloring may hand out.
pub fn allocatable_register(index: usize) -> (r: PhysicalRegister)
    requires
        index < ALLOCATABLE_COUNT,
    ensures
        r == allocatable()[index as int],
{
    if index < CALLER_SAVED_COUNT {
        caller_save(index)
    } else {
        callee_save(index - CALLER_SAVED_COUNT)
    }
}

impl Register {
    /// The abstract register `register` as a register of the ERTL.
    pub fn from_pseudo(register: PseudoRegister) -> (r: Register)
        ensures
            r == Register::Pseudo(register),
    {
        Register::Pseudo(register)
    }
}

} // verus!

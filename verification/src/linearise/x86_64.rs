use crate::common::{Ident, StackOffset, Value};
use crate::ertl::structure::register::PhysicalRegister;
use crate::ertl::structure::Label;
use vstd::prelude::*;

verus! {

/// An assembly file: its sections in order.
#[derive(Debug)]
pub struct Program {
    pub sections: Vec<Section>,
}

#[derive(Debug)]
pub enum Section {
    Text(Asm),
    Data(Asm),
}

/// The width of an operation: byte, word, long or quad.
#[derive(Debug, Clone, Copy, PartialEq, Eq, Structural)]
pub enum Size {
    B,
    W,
    L,
    Q,
}

#[derive(Debug)]
pub struct Asm {
    pub nodes: Vec<AsmNode>,
}

/// One line of assembly. Two-operand forms are written source first.
#[derive(Debug, Clone, Copy, PartialEq, Eq, Structural)]
pub enum AsmNode {
    Mov(Size, X86Operand, X86Operand),
    Movz(Size, Size, X86Operand, X86Operand),
    Movs(Size, Size, X86Operand, X86Operand),
    Lea(Size, X86Operand, X86Operand),
    Inc(Size, X86Operand),
    Dec(Size, X86Operand),
    Neg(Size, X86Operand),
    Add(Size, X86Operand, X86Operand),
    Sub(Size, X86Operand, X86Operand),
    Imul(Size, X86Operand, X86Operand),
    IDivq(X86Operand),
    Cqto,
    Not(Size, X86Operand),
    And(Size, X86Operand, X86Operand),
    Or(Size, X86Operand, X86Operand),
    Xor(Size, X86Operand, X86Operand),
    Shr(Size, X86Operand, X86Operand),
    Shl(Size, X86Operand, X86Operand),
    Sar(Size, X86Operand, X86Operand),
    Jmp(Label),
    JmpStar(X86Operand),
    Call(Ident),
    CallStar(X86Operand),
    Leave,
    Ret,
    Je(Label),
    Jz(Label),
    Jne(Label),
    Jnz(Label),
    Js(Label),
    Jns(Label),
    Jg(Label),
    Jge(Label),
    Jl(Label),
    Jle(Label),
    Ja(Label),
    Jae(Label),
    Jb(Label),
    Jbe(Label),
    Cmp(Size, X86Operand, X86Operand),
    Test(Size, X86Operand, X86Operand),
    Sete(SizedPhysicalRegister),
    Setne(SizedPhysicalRegister),
    Sets(SizedPhysicalRegister),
    Setns(SizedPhysicalRegister),
    Setg(SizedPhysicalRegister),
    Setge(SizedPhysicalRegister),
    Setl(SizedPhysicalRegister),
    Setle(SizedPhysicalRegister),
    Seta(SizedPhysicalRegister),
    Setae(SizedPhysicalRegister),
    Setb(SizedPhysicalRegister),
    Setbe(SizedPhysicalRegister),
    Pushq(X86Operand),
    Popq(X86Operand),
    Align(u8),
    DByte(Value),
    DInt(Value),
    DWord(Value),
    DQuad(Value),
    String(Ident),
    Address(Label),
    Space(u32),
    Label(Label),
    DeclFun(Ident),
    Globl(Ident),
    Comment(Ident),
}

/// A machine register read at a given width.
#[derive(Debug, Clone, Copy, PartialEq, Eq, Structural)]
pub struct SizedPhysicalRegister {
    pub register: PhysicalRegister,
    pub size: Size,
}

#[derive(Clone, Copy, PartialEq, Eq, Debug, Structural)]
pub enum X86Operand {
    Constant(Value),
    Register(PhysicalRegister),
    /// The word at the register plus the displacement.
    Offset(StackOffset, PhysicalRegister),
    OffsetScale(StackOffset, PhysicalRegister, PhysicalRegister, StackOffset),
}

impl X86Operand {
    /// The operand is in memory.
    pub open spec fn in_memory(self) -> bool {
        self is Offset || self is OffsetScale
    }
}

impl AsmNode {
    /// The node is a jump to `label`, conditional or not.
    pub open spec fn jumps_to(self, label: Label) -> bool {
        match self {
            AsmNode::Jmp(l) => l == label,
            AsmNode::Je(l) => l == label,
            AsmNode::Jz(l) => l == label,
            AsmNode::Jne(l) => l == label,
            AsmNode::Jnz(l) => l == label,
            AsmNode::Js(l) => l == label,
            AsmNode::Jns(l) => l == label,
            AsmNode::Jg(l) => l == label,
            AsmNode::Jge(l) => l == label,
            AsmNode::Jl(l) => l == label,
            AsmNode::Jle(l) => l == label,
            AsmNode::Ja(l) => l == label,
            AsmNode::Jae(l) => l == label,
            AsmNode::Jb(l) => l == label,
            AsmNode::Jbe(l) => l == label,
            _ => false,
        }
    }

    /// The node has two operands, and both are in memory.
    pub open spec fn memory_to_memory(self) -> bool {
        match self {
            AsmNode::Mov(_, a, b) => a.in_memory() && b.in_memory(),
            AsmNode::Movz(_, _, a, b) => a.in_memory() && b.in_memory(),
            AsmNode::Movs(_, _, a, b) => a.in_memory() && b.in_memory(),
            AsmNode::Lea(_, a, b) => a.in_memory() && b.in_memory(),
            AsmNode::Add(_, a, b) => a.in_memory() && b.in_memory(),
            AsmNode::Sub(_, a, b) => a.in_memory() && b.in_memory(),
            AsmNode::Imul(_, a, b) => a.in_memory() && b.in_memory(),
            AsmNode::And(_, a, b) => a.in_memory() && b.in_memory(),
            AsmNode::Or(_, a, b) => a.in_memory() && b.in_memory(),
            AsmNode::Xor(_, a, b) => a.in_memory() && b.in_memory(),
            AsmNode::Shr(_, a, b) => a.in_memory() && b.in_memory(),
            AsmNode::Shl(_, a, b) => a.in_memory() && b.in_memory(),
            AsmNode::Sar(_, a, b) => a.in_memory() && b.in_memory(),
            AsmNode::Cmp(_, a, b) => a.in_memory() && b.in_memory(),
            AsmNode::Test(_, a, b) => a.in_memory() && b.in_memory(),
            _ => false,
        }
    }
}

impl View for Asm {
    type V = Seq<AsmNode>;

    open spec fn view(&self) -> Seq<AsmNode> {
        self.nodes@
    }
}

impl Program {
    pub fn new(sections: Vec<Section>) -> (r: Program)
        ensures
            r.sections == sections,
    {
        Program { sections }
    }
}

impl Asm {
    pub fn new(nodes: Vec<AsmNode>) -> (r: Asm)
        ensures
            r.nodes == nodes,
    {
        Asm { nodes }
    }
}

impl SizedPhysicalRegister {
    pub fn new(register: PhysicalRegister, size: Size) -> (r: SizedPhysicalRegister)
        ensures
            r == (SizedPhysicalRegister { register, size }),
    {
        SizedPhysicalRegister { register, size }
    }
}

} // verus!

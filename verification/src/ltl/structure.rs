use crate::common::{Ident, StackOffset, Value};
use crate::ertl::structure::register::PhysicalRegister;
use crate::ertl::structure::{Label, MbBranch, Mbinop, MuBranch, Munop};
use crate::utils::LabelMap;
use vstd::prelude::*;

verus! {

#[derive(Debug)]
pub struct File {
    pub funs: Vec<Fun>,
}

#[derive(Debug)]
pub struct Fun {
    pub name: Ident,
    pub entry: Label,
    pub body: Graph,
}

#[derive(Debug)]
pub struct Graph {
    pub instrs: LabelMap<Instr>,
}

#[derive(Debug, Clone, Copy, PartialEq, Eq, Structural)]
pub enum Instr {
    /// `ELoad(addr, off, dest, l)`.
    ELoad(PhysicalRegister, StackOffset, PhysicalRegister, Label),
    /// `EStore(val, addr, off, l)`.
    EStore(PhysicalRegister, PhysicalRegister, StackOffset, Label),
    EGoto(Label),
    EReturn,
    EConst(Value, Operand, Label),
    EMunop(Munop, Operand, Label),
    /// `EMBinop(op, src, dest, l)`: `dest = dest op src`.
    EMBinop(Mbinop, Operand, Operand, Label),
    EMuBranch(MuBranch, Operand, Label, Label),
    EMbBranch(MbBranch, Operand, Operand, Label, Label),
    EPush(Operand, Label),
    ECall(Ident, Label),
    EPop(Operand, Label),
}

/// Where a value lives: in a machine register, or in the frame slot of the
/// given index, which is the word at `Rbp - 8 * (index + 1)`.
#[derive(Debug, Clone, Copy, PartialEq, Eq, Structural)]
pub enum Operand {
    Register(PhysicalRegister),
    Spilled(usize),
}

/// A function as a mathematical value.
pub ghost struct FunView {
    pub name: Ident,
    pub entry: Label,
    pub body: Map<Label, Instr>,
}

impl Instr {
    /// The labels that control may reach next.
    pub open spec fn successors(self) -> Seq<Label> {
        match self {
            Instr::ELoad(_, _, _, l) => seq![l],
            Instr::EStore(_, _, _, l) => seq![l],
            Instr::EGoto(l) => seq![l],
            Instr::EReturn => seq![],
            Instr::EConst(_, _, l) => seq![l],
            Instr::EMunop(_, _, l) => seq![l],
            Instr::EMBinop(_, _, _, l) => seq![l],
            Instr::EMuBranch(_, _, l1, l2) => seq![l1, l2],
            Instr::EMbBranch(_, _, _, l1, l2) => seq![l1, l2],
            Instr::EPush(_, l) => seq![l],
            Instr::ECall(_, l) => seq![l],
            Instr::EPop(_, l) => seq![l],
        }
    }
}

impl crate::utils::Flowing for Instr {
    open spec fn targets(&self) -> Seq<Label> {
        self.successors()
    }
}

impl View for Graph {
    type V = Map<Label, Instr>;

    open spec fn view(&self) -> Map<Label, Instr> {
        self.instrs@
    }
}

impl View for Fun {
    type V = FunView;

    open spec fn view(&self) -> FunView {
        FunView { name: self.name, entry: self.entry, body: self.body@ }
    }
}

impl View for File {
    type V = Seq<FunView>;

    open spec fn view(&self) -> Seq<FunView> {
        Seq::new(self.funs@.len(), |i: int| self.funs@[i]@)
    }
}

impl File {
    pub fn new(funs: Vec<Fun>) -> (r: File)
        ensures
            r.funs == funs,
    {
        File { funs }
    }
}

impl Fun {
    pub fn new(name: Ident, entry: Label, body: Graph) -> (r: Fun)
        ensures
            r.name == name,
            r.entry == entry,
            r.body == body,
    {
        Fun { name, entry, body }
    }
}

impl Graph {
    pub fn new(instrs: LabelMap<Instr>) -> (r: Graph)
        ensures
            r.instrs == instrs,
    {
        Graph { instrs }
    }
}

} // verus!

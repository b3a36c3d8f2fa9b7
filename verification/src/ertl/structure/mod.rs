pub mod register;

use crate::common::{Ident, StackOffset, Value};
use crate::ertl::structure::register::Register;
use crate::rtl::structure::Supply;
use crate::utils::LabelMap;
use vstd::prelude::*;

verus! {

pub type Label = crate::rtl::structure::label::Label;

pub type Munop = crate::rtl::structure::Munop;

pub type Mbinop = crate::rtl::structure::Mbinop;

pub type MuBranch = crate::rtl::structure::MuBranch;

pub type MbBranch = crate::rtl::structure::MbBranch;

#[derive(Debug, Clone, Copy, PartialEq, Eq, Structural)]
pub enum Instr {
    EConst(Value, Register, Label),
    /// `ELoad(addr, off, dest, l)`.
    ELoad(Register, StackOffset, Register, Label),
    /// `EStore(val, addr, off, l)`.
    EStore(Register, Register, StackOffset, Label),
    EMUnop(Munop, Register, Label),
    /// `EMBinop(op, src, dest, l)`: `dest = dest op src`; a division has `Rax`
    /// for `dest`.
    EMBinop(Mbinop, Register, Register, Label),
    EMuBranch(MuBranch, Register, Label, Label),
    EMbBranch(MbBranch, Register, Register, Label, Label),
    /// `ECall(f, n, l)`: call `f`, whose first `n` arguments are in registers.
    ECall(Ident, u8, Label),
    EGoto(Label),
    EAllocFrame(Label),
    EDeleteFrame(Label),
    /// `EGetParam(i, r, l)`: fetch the argument of index `i`, which came on
    /// the stack, into `r`.
    EGetParam(u8, Register, Label),
    EPushParam(Register, Label),
    EReturn,
}

impl Instr {
    /// The labels that control may reach next.
    pub open spec fn successors(self) -> Seq<Label> {
        match self {
            Instr::EConst(_, _, l) => seq![l],
            Instr::ELoad(_, _, _, l) => seq![l],
            Instr::EStore(_, _, _, l) => seq![l],
            Instr::EMUnop(_, _, l) => seq![l],
            Instr::EMBinop(_, _, _, l) => seq![l],
            Instr::ECall(_, _, l) => seq![l],
            Instr::EGoto(l) => seq![l],
            Instr::EAllocFrame(l) => seq![l],
            Instr::EDeleteFrame(l) => seq![l],
            Instr::EGetParam(_, _, l) => seq![l],
            Instr::EPushParam(_, l) => seq![l],
            Instr::EMuBranch(_, _, l1, l2) => seq![l1, l2],
            Instr::EMbBranch(_, _, _, l1, l2) => seq![l1, l2],
            Instr::EReturn => seq![],
        }
    }
}

impl crate::utils::Flowing for Instr {
    open spec fn targets(&self) -> Seq<Label> {
        self.successors()
    }
}

#[derive(Debug)]
pub struct Graph {
    pub instrs: LabelMap<Instr>,
}

#[derive(Debug)]
pub struct Fun {
    pub name: Ident,
    pub argument_count: u8,
    pub locals: Vec<Register>,
    pub entry: Label,
    pub body: Graph,
}

#[derive(Debug)]
pub struct File {
    pub funs: Vec<Fun>,
}

/// A function as a mathematical value.
pub ghost struct FunView {
    pub name: Ident,
    pub argument_count: u8,
    pub locals: Seq<Register>,
    pub entry: Label,
    pub body: Map<Label, Instr>,
}

impl View for Graph {
    type V = Map<Label, Instr>;

    open spec fn view(&self) -> Map<Label, Instr> {
        self.instrs@
    }
}

impl View for Fun {
    type V = FunView;

    open spec fn view(&self) -> FunView {
        FunView {
            name: self.name,
            argument_count: self.argument_count,
            locals: self.locals@,
            entry: self.entry,
            body: self.body@,
        }
    }
}

impl View for File {
    type V = Seq<FunView>;

    open spec fn view(&self) -> Seq<FunView> {
        Seq::new(self.funs@.len(), |i: int| self.funs@[i]@)
    }
}

impl Graph {
    pub fn new() -> (r: Graph)
        ensures
            r@ == Map::<Label, Instr>::empty(),
    {
        Graph { instrs: LabelMap::new() }
    }

    /// Puts `instr` at `label`, replacing what stood there.
    pub fn insert_at_label(&mut self, label: Label, instr: Instr)
        ensures
            final(self)@ == old(self)@.insert(label, instr),
    {
        self.instrs.insert_at_label(label, instr);
    }

    /// Puts `instr` at a fresh label and returns that label; `None`, with
    /// nothing changed, once the labels are used up.
    pub fn insert(&mut self, supply: &mut Supply, instr: Instr) -> (r: Option<Label>)
        ensures
            match crate::utils::emit(
                crate::utils::State { instrs: old(self)@, supply: *old(supply) },
                instr,
            ) {
                Some((state, label)) => r == Some(label) && *final(supply) == state.supply
                    && final(self)@ == state.instrs,
                None => r is None && *final(supply) == *old(supply) && final(self)@ == old(self)@,
            },
    {
        self.instrs.insert(supply, instr)
    }
}

impl Fun {
    pub fn new(name: Ident, argument_count: u8, locals: Vec<Register>, entry: Label, body: Graph) -> (r:
        Fun)
        ensures
            r.name == name,
            r.argument_count == argument_count,
            r.locals == locals,
            r.entry == entry,
            r.body == body,
    {
        Fun { name, argument_count, locals, entry, body }
    }
}

impl File {
    pub fn new(funs: Vec<Fun>) -> (r: File)
        ensures
            r.funs == funs,
    {
        File { funs }
    }
}

} // verus!

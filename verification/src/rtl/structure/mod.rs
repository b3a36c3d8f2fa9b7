pub mod graph;
pub mod label;
pub mod register;

use crate::common::{Ident, StackOffset, Value};
use crate::rtl::structure::graph::Graph;
use crate::rtl::structure::label::Label;
use crate::rtl::structure::register::PseudoRegister;
use vstd::prelude::*;

verus! {

pub type BlockIdent = crate::typer::structure::BlockIdent;

/// The two monotonic counters from which labels and pseudo-registers are
/// drawn: the ordinals that the next fresh label and register will get.
#[derive(Clone, Copy, Debug, PartialEq, Eq, Structural)]
pub struct Supply {
    pub labels: u32,
    pub registers: u32,
}

impl Supply {
    /// The counters at their start: labels from 0, registers from 1.
    pub fn new() -> (r: Supply)
        ensures
            r == (Supply { labels: 0, registers: 1 }),
    {
        Supply { labels: 0, registers: 1 }
    }

    /// Puts both counters back to their start.
    pub fn reset(&mut self)
        ensures
            *final(self) == (Supply { labels: 0, registers: 1 }),
    {
        self.labels = 0;
        self.registers = 1;
    }
}

/// Handles that are drawn from a `Supply`, each one once.
pub trait Fresh: Sized {
    /// The handle that `supply` issues next, with the supply after it; `None`
    /// once the ordinals are used up.
    spec fn issue(supply: Supply) -> Option<(Self, Supply)>;

    fn fresh(supply: &mut Supply) -> (r: Option<Self>)
        ensures
            match Self::issue(*old(supply)) {
                Some((item, next)) => r == Some(item) && *final(supply) == next,
                None => r is None && *final(supply) == *old(supply),
            },
    ;
}

#[derive(Debug)]
pub struct File {
    pub funs: Vec<Fun>,
}

#[derive(Debug)]
pub struct Fun {
    pub name: Ident,
    pub result: PseudoRegister,
    pub arguments: Vec<PseudoRegister>,
    pub locals: Vec<(BlockIdent, PseudoRegister)>,
    pub entry: Label,
    pub exit: Label,
    pub graph: Graph,
}

/// A function as a mathematical value.
pub ghost struct FunView {
    pub name: Ident,
    pub result: PseudoRegister,
    pub arguments: Seq<PseudoRegister>,
    pub locals: Seq<(BlockIdent, PseudoRegister)>,
    pub vars: Seq<(BlockIdent, PseudoRegister)>,
    pub entry: Label,
    pub exit: Label,
    pub graph: Map<Label, InstrView>,
}

impl View for Fun {
    type V = FunView;

    open spec fn view(&self) -> FunView {
        FunView {
            name: self.name,
            result: self.result,
            arguments: self.arguments@,
            locals: self.locals@,
            vars: self.graph.vars@,
            entry: self.entry,
            exit: self.exit,
            graph: self.graph@,
        }
    }
}

impl View for File {
    type V = Seq<FunView>;

    open spec fn view(&self) -> Seq<FunView> {
        Seq::new(self.funs@.len(), |i: int| self.funs@[i]@)
    }
}

#[derive(Debug, Clone)]
pub enum Instr {
    /// `EConst(v, r, l)`: put `v` into `r`, go to `l`.
    EConst(Value, PseudoRegister, Label),
    /// `ELoad(addr, off, dest, l)`: read the word at `addr + off` into `dest`.
    ELoad(PseudoRegister, StackOffset, PseudoRegister, Label),
    /// `EStore(val, addr, off, l)`: write `val` to the word at `addr + off`.
    EStore(PseudoRegister, PseudoRegister, StackOffset, Label),
    EMUnop(Munop, PseudoRegister, Label),
    /// `EMBinop(op, src, dest, l)`: `dest = dest op src`.
    EMBinop(Mbinop, PseudoRegister, PseudoRegister, Label),
    /// `EMuBranch(op, r, l1, l2)`: go to `l1` if the test holds of `r`, else to `l2`.
    EMuBranch(MuBranch, PseudoRegister, Label, Label),
    EMbBranch(MbBranch, PseudoRegister, PseudoRegister, Label, Label),
    /// `ECall(dest, f, args, l)`: call `f` on `args`, result into `dest`.
    ECall(PseudoRegister, Ident, Vec<PseudoRegister>, Label),
    EGoto(Label),
}

/// An instruction as a mathematical value.
pub ghost enum InstrView {
    EConst(Value, PseudoRegister, Label),
    ELoad(PseudoRegister, StackOffset, PseudoRegister, Label),
    EStore(PseudoRegister, PseudoRegister, StackOffset, Label),
    EMUnop(Munop, PseudoRegister, Label),
    EMBinop(Mbinop, PseudoRegister, PseudoRegister, Label),
    EMuBranch(MuBranch, PseudoRegister, Label, Label),
    EMbBranch(MbBranch, PseudoRegister, PseudoRegister, Label, Label),
    ECall(PseudoRegister, Ident, Seq<PseudoRegister>, Label),
    EGoto(Label),
}

impl View for Instr {
    type V = InstrView;

    open spec fn view(&self) -> InstrView {
        match *self {
            Instr::EConst(v, r, l) => InstrView::EConst(v, r, l),
            Instr::ELoad(a, o, d, l) => InstrView::ELoad(a, o, d, l),
            Instr::EStore(v, a, o, l) => InstrView::EStore(v, a, o, l),
            Instr::EMUnop(op, r, l) => InstrView::EMUnop(op, r, l),
            Instr::EMBinop(op, s, d, l) => InstrView::EMBinop(op, s, d, l),
            Instr::EMuBranch(op, r, l1, l2) => InstrView::EMuBranch(op, r, l1, l2),
            Instr::EMbBranch(op, r1, r2, l1, l2) => InstrView::EMbBranch(op, r1, r2, l1, l2),
            Instr::ECall(d, f, args, l) => InstrView::ECall(d, f, args@, l),
            Instr::EGoto(l) => InstrView::EGoto(l),
        }
    }
}

impl InstrView {
    /// The labels that control may reach next.
    pub open spec fn successors(self) -> Seq<Label> {
        match self {
            InstrView::EConst(_, _, l) => seq![l],
            InstrView::ELoad(_, _, _, l) => seq![l],
            InstrView::EStore(_, _, _, l) => seq![l],
            InstrView::EMUnop(_, _, l) => seq![l],
            InstrView::EMBinop(_, _, _, l) => seq![l],
            InstrView::ECall(_, _, _, l) => seq![l],
            InstrView::EGoto(l) => seq![l],
            InstrView::EMuBranch(_, _, l1, l2) => seq![l1, l2],
            InstrView::EMbBranch(_, _, _, l1, l2) => seq![l1, l2],
        }
    }
}

#[derive(Debug, Clone, Copy, PartialEq, Eq, Structural)]
pub enum Munop {
    Maddi(Value),
    Msetei(Value),
    Msetnei(Value),
    Mneg,
}

#[derive(Debug, Clone, Copy, PartialEq, Eq, Structural)]
pub enum Mbinop {
    MMov,
    MAdd,
    MSub,
    MMul,
    MDiv,
    MSete,
    MSetne,
    Msetl,
    Msetle,
    Msetg,
    Msetge,
}

#[derive(Debug, Clone, Copy, PartialEq, Eq, Structural)]
pub enum MuBranch {
    MJz,
    MJnz,
    MJlei(Value),
    MJgi(Value),
}

#[derive(Debug, Clone, Copy, PartialEq, Eq, Structural)]
pub enum MbBranch {
    MJl,
    MJle,
}

impl File {
    pub fn new(funs: Vec<Fun>) -> (r: File)
        ensures
            r.funs == funs,
    {
        File { funs }
    }
}

impl Fun {
    pub fn new(
        name: Ident,
        result: PseudoRegister,
        arguments: Vec<PseudoRegister>,
        locals: Vec<(BlockIdent, PseudoRegister)>,
        entry: Label,
        exit: Label,
        graph: Graph,
    ) -> (r: Fun)
        ensures
            r.name == name,
            r.result == result,
            r.arguments == arguments,
            r.locals == locals,
            r.entry == entry,
            r.exit == exit,
            r.graph == graph,
    {
        Fun { name, result, arguments, locals, entry, exit, graph }
    }
}

} // verus!

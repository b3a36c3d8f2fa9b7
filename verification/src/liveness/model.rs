use crate::ertl::structure::register::{
    callee_saved, caller_saved, parameters, PhysicalRegister, Register,
};
use crate::ertl::structure::{Instr, Label, Mbinop};
use crate::liveness::structure::InfoView;
use vstd::prelude::*;

verus! {

/// The registers as registers of the analysis.
pub open spec fn physical(registers: Seq<PhysicalRegister>) -> Seq<Register> {
    Seq::new(registers.len(), |i: int| Register::Physical(registers[i]))
}

/// The registers that `instr` writes.
pub open spec fn defs_model(instr: Instr) -> Seq<Register> {
    match instr {
        Instr::EConst(_, r, _) => seq![r],
        Instr::EGetParam(_, r, _) => seq![r],
        Instr::EMuBranch(_, _, _, _) => seq![],
        Instr::EPushParam(_, _) => seq![],
        Instr::EMUnop(_, r, _) => seq![r],
        Instr::ELoad(_, _, rd, _) => seq![rd],
        Instr::EMBinop(op, _, rd, _) => if op == Mbinop::MDiv {
            seq![
                Register::Physical(PhysicalRegister::Rax),
                Register::Physical(PhysicalRegister::Rdx),
            ]
        } else {
            seq![rd]
        },
        Instr::EStore(_, _, _, _) => seq![],
        Instr::EMbBranch(_, _, _, _, _) => seq![],
        Instr::ECall(_, _, _) => physical(caller_saved()),
        Instr::EGoto(_) => seq![],
        Instr::EAllocFrame(_) => seq![],
        Instr::EDeleteFrame(_) => seq![],
        Instr::EReturn => seq![],
    }
}

/// The registers that `instr` reads.
pub open spec fn uses_model(instr: Instr) -> Seq<Register> {
    match instr {
        Instr::EConst(_, _, _) => seq![],
        Instr::EGetParam(_, _, _) => seq![],
        Instr::EMuBranch(_, r, _, _) => seq![r],
        Instr::EPushParam(r, _) => seq![r],
        Instr::EMUnop(_, r, _) => seq![r],
        Instr::ELoad(rs, _, _, _) => seq![rs],
        Instr::EMBinop(op, rs, rd, _) => if op == Mbinop::MMov {
            seq![rs]
        } else if op == Mbinop::MDiv {
            seq![
                Register::Physical(PhysicalRegister::Rax),
                Register::Physical(PhysicalRegister::Rdx),
                rs,
            ]
        } else {
            seq![rs, rd]
        },
        Instr::EStore(r1, r2, _, _) => seq![r1, r2],
        Instr::EMbBranch(_, r1, r2, _, _) => seq![r1, r2],
        Instr::ECall(_, n, _) => physical(
            parameters().take(
                if n <= 6 {
                    n as int
                } else {
                    6
                },
            ),
        ),
        Instr::EGoto(_) => seq![],
        Instr::EAllocFrame(_) => seq![],
        Instr::EDeleteFrame(_) => seq![],
        Instr::EReturn => seq![Register::Physical(PhysicalRegister::Rax)] + physical(
            callee_saved(),
        ),
    }
}

/// Control never leaves the graph: every successor has an instruction.
pub open spec fn closed(graph: Map<Label, Instr>) -> bool {
    forall|l: Label, k: int|
        graph.contains_key(l) && 0 <= k < graph[l].successors().len() ==> graph.contains_key(
            #[trigger] graph[l].successors()[k],
        )
}

/// `live` solves the liveness inequations of `graph`: at each instruction
/// the registers that it reads are live, and so is every register that is
/// live at a successor and that the instruction does not write.
pub open spec fn solves(graph: Map<Label, Instr>, live: Map<Label, Set<Register>>) -> bool {
    forall|l: Label| #[trigger]
        graph.contains_key(l) ==> {
            &&& forall|r: Register| #[trigger]
                uses_model(graph[l]).contains(r) ==> live[l].contains(r)
            &&& forall|k: int, r: Register|
                0 <= k < graph[l].successors().len() && #[trigger] live[graph[l].successors()[k]].contains(
                    r,
                ) && !defs_model(graph[l]).contains(r) ==> live[l].contains(r)
        }
}

/// The live-in sets of a result.
pub open spec fn ins_of(infos: Map<Label, InfoView>) -> Map<Label, Set<Register>> {
    Map::new(|l: Label| infos.contains_key(l), |l: Label| infos[l].ins)
}

/// The labels from which control may come to `l`.
pub open spec fn predecessors(graph: Map<Label, Instr>, l: Label) -> Set<Label> {
    Set::new(|p: Label| graph.contains_key(p) && graph[p].successors().contains(l))
}

/// The registers that are live at some successor of `l`.
pub open spec fn live_out(graph: Map<Label, Instr>, live: Map<Label, Set<Register>>, l: Label) -> Set<
    Register,
> {
    Set::new(
        |r: Register|
            exists|k: int|
                0 <= k < graph[l].successors().len() && #[trigger] live[graph[l].successors()[k]].contains(
                    r,
                ),
    )
}

/// `infos` is the liveness of `graph`: for each instruction its successors,
/// predecessors, written and read registers; the live-in sets are the least
/// solution of the liveness inequations, and each live-out set is the union
/// of the live-in sets of the successors.
pub open spec fn analysed(graph: Map<Label, Instr>, infos: Map<Label, InfoView>) -> bool {
    &&& infos.dom() == graph.dom()
    &&& forall|l: Label| #[trigger]
        graph.contains_key(l) ==> {
            &&& infos[l].instr == graph[l]
            &&& infos[l].succ == graph[l].successors()
            &&& infos[l].pred == predecessors(graph, l)
            &&& infos[l].defs == defs_model(graph[l])
            &&& infos[l].uses == uses_model(graph[l])
            &&& infos[l].outs == live_out(graph, ins_of(infos), l)
        }
    &&& solves(graph, ins_of(infos))
    &&& forall|other: Map<Label, Set<Register>>| #[trigger]
        solves(graph, other) ==> forall|l: Label, r: Register|
            graph.contains_key(l) && #[trigger] infos[l].ins.contains(r) ==> other[l].contains(r)
}

} // verus!

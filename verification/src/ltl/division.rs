use crate::common::StackOffset;
use crate::coloring::structure::Coloring;
use crate::ertl::division as ertl_division;
use crate::ertl::structure as ertl;
use crate::ertl::structure::register::PhysicalRegister;
use crate::ertl::structure::{Label, Mbinop, Munop};
use crate::linearise::error::LinearisingError;
use crate::linearise::model::select_model;
use crate::ltl::ltl_fun_model;
use crate::ltl::model::{
    color_model, hold, load_model, lower_all_model, ltl_instr_model, mov, param_offset, put,
    slot_limit, slot_offset, store_model, Flow,
};
use crate::ltl::structure::{Instr, Operand};
use crate::rtl::structure::Supply;
use crate::utils::{emit, fill, State};
use vstd::prelude::*;

verus! {

/// `instr` is no division, or it divides the result register.
pub open spec fn divides_result(instr: Instr) -> bool {
    match instr {
        Instr::EMBinop(op, _, rd, _) => op == Mbinop::MDiv ==> rd == Operand::Register(
            PhysicalRegister::Rax,
        ),
        _ => true,
    }
}

/// Every division of `graph` divides the result register.
pub open spec fn divisions_fit(graph: Map<Label, Instr>) -> bool {
    forall|l: Label| graph.contains_key(l) ==> divides_result(#[trigger] graph[l])
}

/// Putting an instruction that is no division elsewhere keeps the
/// divisions where they belong, and so does setting a label aside.
pub proof fn lemma_put_fits(state: Flow, instr: Instr)
    requires
        divisions_fit(state.instrs),
        divides_result(instr),
    ensures
        match put(state, instr) {
            Ok((after, _)) => divisions_fit(after.instrs),
            Err(_) => true,
        },
        match hold(state) {
            Ok((after, _)) => after.instrs == state.instrs,
            Err(_) => true,
        },
        forall|at: Label| divisions_fit(#[trigger] fill(state, at, instr).instrs),
{
    match emit(state, instr) {
        Some((after, label)) => {
            assert forall|l: Label| after.instrs.contains_key(l) implies divides_result(
                #[trigger] after.instrs[l],
            ) by {
                if l != label {
                    assert(state.instrs.contains_key(l));
                }
            }
        },
        None => {},
    }
    assert forall|at: Label| divisions_fit(#[trigger] fill(state, at, instr).instrs) by {
        let after = fill(state, at, instr);
        assert forall|l: Label| after.instrs.contains_key(l) implies divides_result(
            #[trigger] after.instrs[l],
        ) by {
            if l != at {
                assert(state.instrs.contains_key(l));
            }
        }
    }
}

/// A load keeps the divisions where they belong.
pub proof fn lemma_load_fits(
    state: Flow,
    label: Label,
    addr: Operand,
    off: StackOffset,
    dest: Operand,
    l: Label,
)
    requires
        divisions_fit(state.instrs),
    ensures
        match load_model(state, label, addr, off, dest, l) {
            Ok(after) => divisions_fit(after.instrs),
            Err(_) => true,
        },
{
    let r10 = PhysicalRegister::R10;
    let r11 = PhysicalRegister::R11;
    let s1: Flow;
    let post: Label;
    let to: PhysicalRegister;
    match dest {
        Operand::Register(r) => {
            s1 = state;
            post = l;
            to = r;
        },
        Operand::Spilled(_) => {
            let back = mov(Operand::Register(r11), dest, l);
            lemma_put_fits(state, back);
            match put(state, back) {
                Ok((after, placed)) => {
                    s1 = after;
                    post = placed;
                    to = r11;
                },
                Err(_) => {
                    s1 = state;
                    post = l;
                    to = r11;
                },
            }
        },
    }
    match addr {
        Operand::Register(r) => {
            lemma_put_fits(s1, Instr::ELoad(r, off, to, post));
        },
        Operand::Spilled(_) => {
            lemma_put_fits(s1, Instr::EGoto(l));
            match hold(s1) {
                Ok((s2, pre)) => {
                    let first = mov(addr, Operand::Register(r10), pre);
                    lemma_put_fits(s2, first);
                    lemma_put_fits(fill(s2, label, first), Instr::ELoad(r10, off, to, post));
                },
                Err(_) => {},
            }
        },
    }
}

/// A store keeps the divisions where they belong.
pub proof fn lemma_store_fits(
    state: Flow,
    label: Label,
    value: Operand,
    addr: Operand,
    off: StackOffset,
    l: Label,
)
    requires
        divisions_fit(state.instrs),
    ensures
        match store_model(state, label, value, addr, off, l) {
            Ok(after) => divisions_fit(after.instrs),
            Err(_) => true,
        },
{
    let r10 = PhysicalRegister::R10;
    let r11 = PhysicalRegister::R11;
    let s1: Flow;
    let at: Label;
    let base: PhysicalRegister;
    match addr {
        Operand::Register(r) => {
            s1 = state;
            at = label;
            base = r;
        },
        Operand::Spilled(_) => {
            lemma_put_fits(state, Instr::EGoto(l));
            match hold(state) {
                Ok((s, next)) => {
                    let first = mov(addr, Operand::Register(r10), next);
                    lemma_put_fits(s, first);
                    s1 = fill(s, label, first);
                    at = next;
                    base = r10;
                },
                Err(_) => {
                    s1 = state;
                    at = label;
                    base = r10;
                },
            }
        },
    }
    match value {
        Operand::Register(r) => {
            lemma_put_fits(s1, Instr::EStore(r, base, off, l));
        },
        Operand::Spilled(_) => {
            lemma_put_fits(s1, Instr::EGoto(l));
            match hold(s1) {
                Ok((s2, next)) => {
                    let first = mov(value, Operand::Register(r11), next);
                    lemma_put_fits(s2, first);
                    lemma_put_fits(fill(s2, at, first), Instr::EStore(r11, base, off, l));
                },
                Err(_) => {},
            }
        },
    }
}

/// Lowering an ERTL instruction that is no division elsewhere keeps the
/// divisions where they belong: the result register is its own color.
pub proof fn lemma_ltl_instr_fits(
    colors: Map<u32, Operand>,
    count: usize,
    state: Flow,
    label: Label,
    instr: ertl::Instr,
)
    requires
        divisions_fit(state.instrs),
        ertl_division::divides_result(instr),
    ensures
        match ltl_instr_model(colors, count, state, label, instr) {
            Ok(after) => divisions_fit(after.instrs),
            Err(_) => true,
        },
{
    let rsp = Operand::Register(PhysicalRegister::Rsp);
    let rbp = Operand::Register(PhysicalRegister::Rbp);
    match instr {
        ertl::Instr::EConst(c, r, l) => match color_model(colors, r) {
            Ok(color) => {
                lemma_put_fits(state, Instr::EConst(c, color, l));
            },
            Err(_) => {},
        },
        ertl::Instr::ELoad(addr, off, dest, l) => match color_model(colors, addr) {
            Ok(a) => match color_model(colors, dest) {
                Ok(d) => {
                    lemma_load_fits(state, label, a, off, d, l);
                },
                Err(_) => {},
            },
            Err(_) => {},
        },
        ertl::Instr::EStore(value, addr, off, l) => match color_model(colors, value) {
            Ok(v) => match color_model(colors, addr) {
                Ok(a) => {
                    lemma_store_fits(state, label, v, a, off, l);
                },
                Err(_) => {},
            },
            Err(_) => {},
        },
        ertl::Instr::EMUnop(op, r, l) => match color_model(colors, r) {
            Ok(color) => {
                lemma_put_fits(state, Instr::EMunop(op, color, l));
            },
            Err(_) => {},
        },
        ertl::Instr::EMBinop(op, r1, r2, l) => match color_model(colors, r1) {
            Ok(c1) => match color_model(colors, r2) {
                Ok(c2) => {
                    lemma_put_fits(state, Instr::EGoto(l));
                    lemma_put_fits(state, Instr::EMBinop(op, c1, c2, l));
                },
                Err(_) => {},
            },
            Err(_) => {},
        },
        ertl::Instr::EMuBranch(op, r, l1, l2) => match color_model(colors, r) {
            Ok(color) => {
                lemma_put_fits(state, Instr::EMuBranch(op, color, l1, l2));
            },
            Err(_) => {},
        },
        ertl::Instr::EMbBranch(op, r1, r2, l1, l2) => match color_model(colors, r1) {
            Ok(c1) => match color_model(colors, r2) {
                Ok(c2) => {
                    lemma_put_fits(state, Instr::EMbBranch(op, c1, c2, l1, l2));
                },
                Err(_) => {},
            },
            Err(_) => {},
        },
        ertl::Instr::ECall(name, _, l) => {
            lemma_put_fits(state, Instr::ECall(name, l));
        },
        ertl::Instr::EGoto(l) => {
            lemma_put_fits(state, Instr::EGoto(l));
        },
        ertl::Instr::EAllocFrame(l) => {
            lemma_put_fits(state, Instr::EGoto(l));
            if count != 0 && count <= slot_limit() {
                let add = Instr::EMunop(Munop::Maddi((-8 * count) as i64), rsp, l);
                lemma_put_fits(state, add);
                match put(state, add) {
                    Ok((s1, at_add)) => {
                        let set = mov(rsp, rbp, at_add);
                        lemma_put_fits(s1, set);
                        match put(s1, set) {
                            Ok((s2, at_set)) => {
                                lemma_put_fits(s2, Instr::EPush(rbp, at_set));
                            },
                            Err(_) => {},
                        }
                    },
                    Err(_) => {},
                }
            }
        },
        ertl::Instr::EDeleteFrame(l) => {
            lemma_put_fits(state, Instr::EGoto(l));
            if count != 0 {
                lemma_put_fits(state, Instr::EPop(rbp, l));
                match put(state, Instr::EPop(rbp, l)) {
                    Ok((s1, pop)) => {
                        lemma_put_fits(s1, mov(rbp, rsp, pop));
                    },
                    Err(_) => {},
                }
            }
        },
        ertl::Instr::EGetParam(index, dest, l) => match color_model(colors, dest) {
            Ok(Operand::Register(r)) => {
                lemma_put_fits(
                    state,
                    Instr::ELoad(PhysicalRegister::Rbp, param_offset(index) as i64, r, l),
                );
            },
            Ok(Operand::Spilled(slot)) => {
                if slot <= slot_limit() {
                    let store = Instr::EStore(
                        PhysicalRegister::R10,
                        PhysicalRegister::Rbp,
                        slot_offset(slot) as i64,
                        l,
                    );
                    lemma_put_fits(state, store);
                    match put(state, store) {
                        Ok((s1, at_store)) => {
                            lemma_put_fits(
                                s1,
                                Instr::ELoad(
                                    PhysicalRegister::Rbp,
                                    param_offset(index) as i64,
                                    PhysicalRegister::R10,
                                    at_store,
                                ),
                            );
                        },
                        Err(_) => {},
                    }
                }
            },
            Err(_) => {},
        },
        ertl::Instr::EPushParam(r, l) => match color_model(colors, r) {
            Ok(color) => {
                lemma_put_fits(state, Instr::EPush(color, l));
            },
            Err(_) => {},
        },
        ertl::Instr::EReturn => {
            lemma_put_fits(state, Instr::EReturn);
        },
    }
}

/// Lowering the instructions of a graph in which every division divides
/// the result register keeps the divisions where they belong.
pub proof fn lemma_lower_all_fits(
    colors: Map<u32, Operand>,
    count: usize,
    state: Flow,
    graph: Map<Label, ertl::Instr>,
    order: Seq<Label>,
    from: nat,
)
    requires
        divisions_fit(state.instrs),
        ertl_division::divisions_fit(graph),
        forall|k: int| 0 <= k < order.len() ==> graph.contains_key(#[trigger] order[k]),
    ensures
        match lower_all_model(colors, count, state, graph, order, from) {
            Ok(after) => divisions_fit(after.instrs),
            Err(_) => true,
        },
    decreases order.len() - from,
{
    if from < order.len() {
        let label = order[from as int];
        assert(graph.contains_key(label));
        lemma_ltl_instr_fits(colors, count, state, label, graph[label]);
        match ltl_instr_model(colors, count, state, label, graph[label]) {
            Ok(after) => {
                lemma_lower_all_fits(colors, count, after, graph, order, from + 1);
            },
            Err(_) => {},
        }
    }
}

/// Where every division of an ERTL function divides the result register,
/// so does every division of the function lowered under any coloring; and
/// the code of no instruction of it fails for a division elsewhere.
pub proof fn lemma_ltl_fun_divides(
    fun: ertl::FunView,
    coloring: Coloring,
    supply: Supply,
    order: Seq<Label>,
)
    requires
        ertl_division::divisions_fit(fun.body),
        forall|k: int| 0 <= k < order.len() ==> fun.body.contains_key(#[trigger] order[k]),
    ensures
        match ltl_fun_model(fun, coloring, supply, order) {
            Ok((lowered, _)) => divisions_fit(lowered.body) && forall|l: Label|
                lowered.body.contains_key(l) ==> select_model(#[trigger] lowered.body[l]) != Err::<
                    Seq<crate::linearise::x86_64::AsmNode>,
                    LinearisingError,
                >(LinearisingError::DivisionOutsideRax),
            Err(_) => true,
        },
{
    let s0: Flow = State { instrs: Map::empty(), supply };
    lemma_lower_all_fits(coloring.colors@, coloring.count_on_stack, s0, fun.body, order, 0);
    match ltl_fun_model(fun, coloring, supply, order) {
        Ok((lowered, _)) => {
            assert forall|l: Label| lowered.body.contains_key(l) implies select_model(
                #[trigger] lowered.body[l],
            ) != Err::<Seq<crate::linearise::x86_64::AsmNode>, LinearisingError>(
                LinearisingError::DivisionOutsideRax,
            ) by {
                assert(divides_result(lowered.body[l]));
            }
        },
        Err(_) => {},
    }
}

} // verus!

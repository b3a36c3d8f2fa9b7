use crate::coloring::structure::Coloring;
use crate::common::StackOffset;
use crate::ertl::structure as ertl;
use crate::ertl::structure::register::PhysicalRegister;
use crate::ertl::structure::{Label, Mbinop, Munop};
use crate::ltl::error::LtlError;
use crate::ltl::model::{
    color_model, hold, load_model, lower_all_model, ltl_instr_model, mov, param_offset, put,
    slot_limit, slot_offset, store_model, Flow,
};
use crate::ltl::structure::{Instr, Operand};
use crate::ltl::ltl_fun_model;
use crate::rtl::structure::Supply;
use crate::utils::{
    closed, fill, known, lemma_emit, lemma_fill, lemma_settle, lemma_step_both, lemma_step_keeps,
    lemma_step_none, lists, step, Flowing, State,
};
use vstd::prelude::*;

verus! {

/// Putting an instruction whose targets are known at a fresh label is a
/// step, after which that label has an instruction.
pub proof fn lemma_put(state: Flow, instr: Instr, allowed: Set<Label>)
    requires
        forall|k: int|
            0 <= k < instr.targets().len() ==> known(
                state.instrs,
                allowed,
                #[trigger] instr.targets()[k],
            ),
    ensures
        match put(state, instr) {
            Ok((after, label)) => step(state.instrs, after.instrs, allowed)
                && after.instrs.contains_key(label),
            Err(_) => true,
        },
{
    lemma_emit(state, instr, allowed);
}

/// Putting at `label` an instruction that leads on to the known label
/// `next` is a step, after which `label` has an instruction.
pub proof fn lemma_at(state: Flow, label: Label, instr: Instr, next: Label, allowed: Set<Label>)
    requires
        instr.targets() == seq![next],
        known(state.instrs, allowed, next) || next == label,
    ensures
        step(state.instrs, fill(state, label, instr).instrs, allowed),
        fill(state, label, instr).instrs.contains_key(label),
{
    lemma_fill(state.instrs, label, instr, allowed);
}

/// Lowering a load that leads on to a known label, or to its own, is a
/// step, after which its label has an instruction.
pub proof fn lemma_load(
    state: Flow,
    label: Label,
    addr: Operand,
    off: StackOffset,
    dest: Operand,
    l: Label,
    allowed: Set<Label>,
)
    requires
        known(state.instrs, allowed, l) || l == label,
    ensures
        match load_model(state, label, addr, off, dest, l) {
            Ok(after) => step(state.instrs, after.instrs, allowed) && after.instrs.contains_key(
                label,
            ),
            Err(_) => true,
        },
{
    let g = state.instrs;
    let more = allowed.insert(label);
    lemma_step_none(g, more);
    let after = match dest {
        Operand::Register(r) => Ok::<(Flow, Label, PhysicalRegister), LtlError>((state, l, r)),
        Operand::Spilled(_) => {
            let back = mov(Operand::Register(PhysicalRegister::R11), dest, l);
            assert(back.targets() == seq![l]);
            lemma_put(state, back, more);
            match put(state, back) {
                Ok((s1, post)) => Ok((s1, post, PhysicalRegister::R11)),
                Err(error) => Err(error),
            }
        },
    };
    match after {
        Ok((s1, post, target)) => {
            assert(step(g, s1.instrs, more));
            assert(known(s1.instrs, more, post));
            match addr {
                Operand::Register(r) => {
                    let load = Instr::ELoad(r, off, target, post);
                    assert(load.targets() == seq![post]);
                    lemma_fill(s1.instrs, label, load, more);
                    let s2 = fill(s1, label, load);
                    lemma_step_both(g, s1.instrs, s2.instrs, more);
                    lemma_settle(g, s2.instrs, allowed, more);
                },
                Operand::Spilled(_) => match hold(s1) {
                    Ok((s2, pre)) => {
                        let first = mov(addr, Operand::Register(PhysicalRegister::R10), pre);
                        assert(first.targets() == seq![pre]);
                        let wider = more.insert(pre);
                        lemma_fill(s2.instrs, label, first, wider);
                        let s3 = fill(s2, label, first);
                        let load = Instr::ELoad(PhysicalRegister::R10, off, target, post);
                        assert(load.targets() == seq![post]);
                        lemma_fill(s3.instrs, pre, load, wider);
                        let s4 = fill(s3, pre, load);
                        lemma_step_both(s2.instrs, s3.instrs, s4.instrs, wider);
                        lemma_step_keeps(s3.instrs, s4.instrs, wider, label);
                        lemma_settle(s2.instrs, s4.instrs, more, wider);
                        lemma_step_both(g, s1.instrs, s4.instrs, more);
                        lemma_settle(g, s4.instrs, allowed, more);
                    },
                    Err(_) => {},
                },
            }
        },
        Err(_) => {},
    }
}

/// Lowering a store that leads on to a known label, or to its own, is a
/// step, after which its label has an instruction.
pub proof fn lemma_store(
    state: Flow,
    label: Label,
    value: Operand,
    addr: Operand,
    off: StackOffset,
    l: Label,
    allowed: Set<Label>,
)
    requires
        known(state.instrs, allowed, l) || l == label,
    ensures
        match store_model(state, label, value, addr, off, l) {
            Ok(after) => step(state.instrs, after.instrs, allowed) && after.instrs.contains_key(
                label,
            ),
            Err(_) => true,
        },
{
    let g = state.instrs;
    let more = allowed.insert(label);
    lemma_step_none(g, more);
    match addr {
        Operand::Register(r) => match value {
            Operand::Register(v) => {
                let store = Instr::EStore(v, r, off, l);
                assert(store.targets() == seq![l]);
                lemma_fill(g, label, store, allowed);
            },
            Operand::Spilled(_) => match hold(state) {
                Ok((s1, next)) => {
                    let wider = more.insert(next);
                    let first = mov(value, Operand::Register(PhysicalRegister::R11), next);
                    assert(first.targets() == seq![next]);
                    lemma_fill(s1.instrs, label, first, wider);
                    let s2 = fill(s1, label, first);
                    let store = Instr::EStore(PhysicalRegister::R11, r, off, l);
                    assert(store.targets() == seq![l]);
                    lemma_fill(s2.instrs, next, store, wider);
                    let s3 = fill(s2, next, store);
                    lemma_step_both(g, s2.instrs, s3.instrs, wider);
                    lemma_step_keeps(s2.instrs, s3.instrs, wider, label);
                    lemma_settle(g, s3.instrs, allowed, wider);
                },
                Err(_) => {},
            },
        },
        Operand::Spilled(_) => match hold(state) {
            Ok((s1, at)) => {
                let wide = more.insert(at);
                let first = mov(addr, Operand::Register(PhysicalRegister::R10), at);
                assert(first.targets() == seq![at]);
                lemma_fill(s1.instrs, label, first, wide);
                let s2 = fill(s1, label, first);
                match value {
                    Operand::Register(v) => {
                        let store = Instr::EStore(v, PhysicalRegister::R10, off, l);
                        assert(store.targets() == seq![l]);
                        lemma_fill(s2.instrs, at, store, wide);
                        let s3 = fill(s2, at, store);
                        lemma_step_both(g, s2.instrs, s3.instrs, wide);
                        lemma_step_keeps(s2.instrs, s3.instrs, wide, label);
                        lemma_settle(g, s3.instrs, allowed, wide);
                    },
                    Operand::Spilled(_) => match hold(s2) {
                        Ok((s3, next)) => {
                            let wider = wide.insert(next);
                            lemma_fill(s1.instrs, label, first, wider);
                            let second = mov(
                                value,
                                Operand::Register(PhysicalRegister::R11),
                                next,
                            );
                            assert(second.targets() == seq![next]);
                            lemma_fill(s3.instrs, at, second, wider);
                            let s4 = fill(s3, at, second);
                            let store = Instr::EStore(
                                PhysicalRegister::R11,
                                PhysicalRegister::R10,
                                off,
                                l,
                            );
                            assert(store.targets() == seq![l]);
                            lemma_fill(s4.instrs, next, store, wider);
                            let s5 = fill(s4, next, store);
                            lemma_step_both(g, s2.instrs, s4.instrs, wider);
                            lemma_step_both(g, s4.instrs, s5.instrs, wider);
                            lemma_step_keeps(s2.instrs, s4.instrs, wider, label);
                            lemma_step_keeps(s4.instrs, s5.instrs, wider, label);
                            lemma_step_keeps(s4.instrs, s5.instrs, wider, at);
                            lemma_settle(g, s5.instrs, allowed, wider);
                        },
                        Err(_) => {},
                    },
                }
            },
            Err(_) => {},
        },
    }
}

/// Lowering an instruction whose targets are known, or are its own label,
/// is a step, after which its label has an instruction.
pub proof fn lemma_ltl_instr(
    colors: Map<u32, Operand>,
    count: usize,
    state: Flow,
    label: Label,
    instr: ertl::Instr,
    allowed: Set<Label>,
)
    requires
        forall|k: int|
            0 <= k < instr.successors().len() ==> known(
                state.instrs,
                allowed,
                #[trigger] instr.successors()[k],
            ) || instr.successors()[k] == label,
    ensures
        match ltl_instr_model(colors, count, state, label, instr) {
            Ok(after) => step(state.instrs, after.instrs, allowed) && after.instrs.contains_key(
                label,
            ),
            Err(_) => true,
        },
{
    let g = state.instrs;
    let more = allowed.insert(label);
    match instr {
        ertl::Instr::EConst(c, r, l) => {
            assert(instr.successors()[0] == l);
            match color_model(colors, r) {
                Ok(color) => {
                    lemma_at(state, label, Instr::EConst(c, color, l), l, allowed);
                },
                Err(_) => {},
            }
        },
        ertl::Instr::ELoad(addr, off, dest, l) => {
            assert(instr.successors()[0] == l);
            match color_model(colors, addr) {
                Ok(addr) => match color_model(colors, dest) {
                    Ok(dest) => {
                        lemma_load(state, label, addr, off, dest, l, allowed);
                    },
                    Err(_) => {},
                },
                Err(_) => {},
            }
        },
        ertl::Instr::EStore(value, addr, off, l) => {
            assert(instr.successors()[0] == l);
            match color_model(colors, value) {
                Ok(value) => match color_model(colors, addr) {
                    Ok(addr) => {
                        lemma_store(state, label, value, addr, off, l, allowed);
                    },
                    Err(_) => {},
                },
                Err(_) => {},
            }
        },
        ertl::Instr::EMUnop(op, r, l) => {
            assert(instr.successors()[0] == l);
            match color_model(colors, r) {
                Ok(color) => {
                    lemma_at(state, label, Instr::EMunop(op, color, l), l, allowed);
                },
                Err(_) => {},
            }
        },
        ertl::Instr::EMBinop(op, r1, r2, l) => {
            assert(instr.successors()[0] == l);
            match color_model(colors, r1) {
                Ok(color_1) => match color_model(colors, r2) {
                    Ok(color_2) => {
                        if op == Mbinop::MMov && color_1 == color_2 {
                            lemma_at(state, label, Instr::EGoto(l), l, allowed);
                        } else {
                            lemma_at(
                                state,
                                label,
                                Instr::EMBinop(op, color_1, color_2, l),
                                l,
                                allowed,
                            );
                        }
                    },
                    Err(_) => {},
                },
                Err(_) => {},
            }
        },
        ertl::Instr::EMuBranch(op, r, l1, l2) => {
            assert(instr.successors()[0] == l1);
            assert(instr.successors()[1] == l2);
            match color_model(colors, r) {
                Ok(color) => {
                    let lowered = Instr::EMuBranch(op, color, l1, l2);
                    assert(lowered.targets() == seq![l1, l2]);
                    lemma_fill(g, label, lowered, allowed);
                },
                Err(_) => {},
            }
        },
        ertl::Instr::EMbBranch(op, r1, r2, l1, l2) => {
            assert(instr.successors()[0] == l1);
            assert(instr.successors()[1] == l2);
            match color_model(colors, r1) {
                Ok(color_1) => match color_model(colors, r2) {
                    Ok(color_2) => {
                        let lowered = Instr::EMbBranch(op, color_1, color_2, l1, l2);
                        assert(lowered.targets() == seq![l1, l2]);
                        lemma_fill(g, label, lowered, allowed);
                    },
                    Err(_) => {},
                },
                Err(_) => {},
            }
        },
        ertl::Instr::ECall(name, _, l) => {
            assert(instr.successors()[0] == l);
            lemma_at(state, label, Instr::ECall(name, l), l, allowed);
        },
        ertl::Instr::EGoto(l) => {
            assert(instr.successors()[0] == l);
            lemma_at(state, label, Instr::EGoto(l), l, allowed);
        },
        ertl::Instr::EAllocFrame(l) => {
            assert(instr.successors()[0] == l);
            if count == 0 {
                lemma_at(state, label, Instr::EGoto(l), l, allowed);
            } else if count <= slot_limit() {
                let add_instr = Instr::EMunop(
                    Munop::Maddi((-8 * count) as i64),
                    Operand::Register(PhysicalRegister::Rsp),
                    l,
                );
                assert(add_instr.targets() == seq![l]);
                lemma_put(state, add_instr, more);
                match put(state, add_instr) {
                    Ok((s1, add)) => {
                        let set_instr = mov(
                            Operand::Register(PhysicalRegister::Rsp),
                            Operand::Register(PhysicalRegister::Rbp),
                            add,
                        );
                        assert(set_instr.targets() == seq![add]);
                        lemma_put(s1, set_instr, more);
                        match put(s1, set_instr) {
                            Ok((s2, set)) => {
                                let push = Instr::EPush(
                                    Operand::Register(PhysicalRegister::Rbp),
                                    set,
                                );
                                assert(push.targets() == seq![set]);
                                lemma_fill(s2.instrs, label, push, more);
                                let s3 = fill(s2, label, push);
                                lemma_step_both(g, s1.instrs, s2.instrs, more);
                                lemma_step_both(g, s2.instrs, s3.instrs, more);
                                lemma_settle(g, s3.instrs, allowed, more);
                            },
                            Err(_) => {},
                        }
                    },
                    Err(_) => {},
                }
            }
        },
        ertl::Instr::EDeleteFrame(l) => {
            assert(instr.successors()[0] == l);
            if count == 0 {
                lemma_at(state, label, Instr::EGoto(l), l, allowed);
            } else {
                let pop_instr = Instr::EPop(Operand::Register(PhysicalRegister::Rbp), l);
                assert(pop_instr.targets() == seq![l]);
                lemma_put(state, pop_instr, more);
                match put(state, pop_instr) {
                    Ok((s1, pop)) => {
                        let first = mov(
                            Operand::Register(PhysicalRegister::Rbp),
                            Operand::Register(PhysicalRegister::Rsp),
                            pop,
                        );
                        assert(first.targets() == seq![pop]);
                        lemma_fill(s1.instrs, label, first, more);
                        let s2 = fill(s1, label, first);
                        lemma_step_both(g, s1.instrs, s2.instrs, more);
                        lemma_settle(g, s2.instrs, allowed, more);
                    },
                    Err(_) => {},
                }
            }
        },
        ertl::Instr::EGetParam(index, dest, l) => {
            assert(instr.successors()[0] == l);
            match color_model(colors, dest) {
                Ok(Operand::Register(r)) => {
                    lemma_at(
                        state,
                        label,
                        Instr::ELoad(PhysicalRegister::Rbp, param_offset(index) as i64, r, l),
                        l,
                        allowed,
                    );
                },
                Ok(Operand::Spilled(slot)) => {
                    if slot <= slot_limit() {
                        let store_instr = Instr::EStore(
                            PhysicalRegister::R10,
                            PhysicalRegister::Rbp,
                            slot_offset(slot) as i64,
                            l,
                        );
                        assert(store_instr.targets() == seq![l]);
                        lemma_put(state, store_instr, more);
                        match put(state, store_instr) {
                            Ok((s1, store)) => {
                                let load = Instr::ELoad(
                                    PhysicalRegister::Rbp,
                                    param_offset(index) as i64,
                                    PhysicalRegister::R10,
                                    store,
                                );
                                assert(load.targets() == seq![store]);
                                lemma_fill(s1.instrs, label, load, more);
                                let s2 = fill(s1, label, load);
                                lemma_step_both(g, s1.instrs, s2.instrs, more);
                                lemma_settle(g, s2.instrs, allowed, more);
                            },
                            Err(_) => {},
                        }
                    }
                },
                Err(_) => {},
            }
        },
        ertl::Instr::EPushParam(r, l) => {
            assert(instr.successors()[0] == l);
            match color_model(colors, r) {
                Ok(color) => {
                    lemma_at(state, label, Instr::EPush(color, l), l, allowed);
                },
                Err(_) => {},
            }
        },
        ertl::Instr::EReturn => {
            assert(Instr::EReturn.targets() == Seq::<Label>::empty());
            lemma_fill(g, label, Instr::EReturn, allowed);
        },
    }
}

/// Lowering the instructions at the labels from `order[from]` on is a step,
/// after which each of those labels has an instruction.
pub proof fn lemma_lower_all(
    colors: Map<u32, Operand>,
    count: usize,
    state: Flow,
    graph: Map<Label, ertl::Instr>,
    order: Seq<Label>,
    from: nat,
    allowed: Set<Label>,
)
    requires
        forall|l: Label, k: int|
            graph.contains_key(l) && 0 <= k < graph[l].successors().len() ==> allowed.contains(
                #[trigger] graph[l].successors()[k],
            ),
        forall|i: int| 0 <= i < order.len() ==> graph.contains_key(#[trigger] order[i]),
    ensures
        match lower_all_model(colors, count, state, graph, order, from) {
            Ok(after) => step(state.instrs, after.instrs, allowed) && forall|i: int|
                from <= i < order.len() ==> after.instrs.contains_key(#[trigger] order[i]),
            Err(_) => true,
        },
    decreases order.len() - from,
{
    if from < order.len() {
        let label = order[from as int];
        let instr = graph[label];
        assert forall|k: int| 0 <= k < instr.successors().len() implies known(
            state.instrs,
            allowed,
            #[trigger] instr.successors()[k],
        ) || instr.successors()[k] == label by {
            assert(allowed.contains(graph[label].successors()[k]));
        }
        lemma_ltl_instr(colors, count, state, label, instr, allowed);
        match ltl_instr_model(colors, count, state, label, instr) {
            Ok(mid) => {
                lemma_lower_all(colors, count, mid, graph, order, from + 1, allowed);
                match lower_all_model(colors, count, mid, graph, order, from + 1) {
                    Ok(after) => {
                        lemma_step_both(state.instrs, mid.instrs, after.instrs, allowed);
                        lemma_step_keeps(mid.instrs, after.instrs, allowed, label);
                    },
                    Err(_) => {},
                }
            },
            Err(_) => {},
        }
    } else {
        lemma_step_none(state.instrs, allowed);
    }
}

/// Where control never leaves the body of an ERTL function, it never leaves
/// the body of the function lowered under any coloring, and every label of
/// the one has an instruction in the other.
pub proof fn lemma_ltl_fun_closed(
    fun: ertl::FunView,
    coloring: Coloring,
    supply: Supply,
    order: Seq<Label>,
)
    requires
        closed(fun.body, Set::<Label>::empty()),
        lists(order, fun.body.dom()),
    ensures
        match ltl_fun_model(fun, coloring, supply, order) {
            Ok((lowered, _)) => closed(lowered.body, Set::<Label>::empty()) && forall|l: Label|
                fun.body.contains_key(l) ==> lowered.body.contains_key(l),
            Err(_) => true,
        },
{
    let allowed = fun.body.dom();
    let none = Set::<Label>::empty();
    let s0: Flow = State { instrs: Map::empty(), supply };
    assert forall|l: Label, k: int|
        fun.body.contains_key(l) && 0 <= k < fun.body[l].successors().len() implies allowed.contains(
        #[trigger] fun.body[l].successors()[k],
    ) by {
        assert(fun.body.contains_key(fun.body[l].targets()[k]) || none.contains(
            fun.body[l].targets()[k],
        ));
    }
    assert forall|i: int| 0 <= i < order.len() implies fun.body.contains_key(
        #[trigger] order[i],
    ) by {
        assert(order.contains(order[i]));
    }
    lemma_lower_all(
        coloring.colors@,
        coloring.count_on_stack,
        s0,
        fun.body,
        order,
        0,
        allowed,
    );
    match lower_all_model(coloring.colors@, coloring.count_on_stack, s0, fun.body, order, 0) {
        Ok(s1) => {
            assert forall|l: Label| fun.body.contains_key(l) implies s1.instrs.contains_key(
                l,
            ) by {
                assert(order.contains(l));
                let i = choose|i: int| 0 <= i < order.len() && order[i] == l;
                assert(s1.instrs.contains_key(order[i]));
            }
            lemma_settle(s0.instrs, s1.instrs, none, allowed);
            reveal(step);
        },
        Err(_) => {},
    }
}

} // verus!

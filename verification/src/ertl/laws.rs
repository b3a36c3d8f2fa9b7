
use crate::ertl::model::{
    ertl_fun_model, ertl_instr_model, fetch_all_model, fetch_model, keep_all_model, keep_model,
    lower_all_model, mov, pass_all_model, pass_model, put, saves_model, Flow,
};
use crate::ertl::structure::register::{callee_saved, PhysicalRegister, Register};
use crate::ertl::structure::{Instr, Label, Mbinop, Munop};
use crate::rtl::structure as rtl;
use crate::rtl::structure::register::PseudoRegister;
use crate::rtl::structure::Supply;
use crate::utils::{
    closed, fill, known, lemma_emit, lemma_fill, lemma_settle, lemma_step_both, lemma_step_keeps,
    lemma_step_none, lists, step, Flowing, State,
};
use vstd::prelude::*;

verus! {

/// Putting an instruction whose targets are known at a fresh label is a
/// step, after which that label has an instruction.
pub proof fn lemma_put(state: Flow, instr: Instr, allowed: Set<Label>)
    requires
        forall|k: int|
            0 <= k < instr.targets().len() ==> known(
                state.instrs,
                allowed,
                #[trigger] instr.targets()[k],
            ),
    ensures
        match put(state, instr) {
            Ok((after, label)) => step(state.instrs, after.instrs, allowed)
                && after.instrs.contains_key(label),
            Err(_) => true,
        },
{
    lemma_emit(state, instr, allowed);
}

/// Handing over the arguments from `args[from]` on is a step, after which
/// `label` has an instruction.
pub proof fn lemma_pass_all(
    state: Flow,
    label: Label,
    args: Seq<PseudoRegister>,
    from: nat,
    next: Label,
    allowed: Set<Label>,
)
    requires
        from < args.len(),
        known(state.instrs, allowed, next),
    ensures
        match pass_all_model(state, label, args, from, next) {
            Ok(after) => step(state.instrs, after.instrs, allowed) && after.instrs.contains_key(
                label,
            ),
            Err(_) => true,
        },
    decreases args.len() - from,
{
    let instr = pass_model(from, args[from as int], next);
    assert(instr.targets() == seq![next]);
    if from + 1 < args.len() {
        lemma_put(state, instr, allowed);
        match put(state, instr) {
            Ok((mid, placed)) => {
                lemma_pass_all(mid, label, args, from + 1, placed, allowed);
                match pass_all_model(mid, label, args, from + 1, placed) {
                    Ok(after) => {
                        lemma_step_both(state.instrs, mid.instrs, after.instrs, allowed);
                    },
                    Err(_) => {},
                }
            },
            Err(_) => {},
        }
    } else {
        lemma_fill(state.instrs, label, instr, allowed);
    }
}

/// Lowering an instruction whose targets are known, or are its own label,
/// is a step, after which its label has an instruction.
pub proof fn lemma_ertl_instr(state: Flow, label: Label, instr: rtl::InstrView, allowed: Set<Label>)
    requires
        forall|k: int|
            0 <= k < instr.successors().len() ==> known(
                state.instrs,
                allowed,
                #[trigger] instr.successors()[k],
            ) || instr.successors()[k] == label,
    ensures
        match ertl_instr_model(state, label, instr) {
            Ok(after) => step(state.instrs, after.instrs, allowed) && after.instrs.contains_key(
                label,
            ),
            Err(_) => true,
        },
{
    let g = state.instrs;
    let more = allowed.insert(label);
    match instr {
        rtl::InstrView::EConst(x, r, l) => {
            assert(instr.successors()[0] == l);
            let lifted = Instr::EConst(x, Register::Pseudo(r), l);
            assert(lifted.targets() == seq![l]);
            lemma_fill(g, label, lifted, allowed);
        },
        rtl::InstrView::ELoad(a, o, d, l) => {
            assert(instr.successors()[0] == l);
            let lifted = Instr::ELoad(Register::Pseudo(a), o, Register::Pseudo(d), l);
            assert(lifted.targets() == seq![l]);
            lemma_fill(g, label, lifted, allowed);
        },
        rtl::InstrView::EStore(v, a, o, l) => {
            assert(instr.successors()[0] == l);
            let lifted = Instr::EStore(Register::Pseudo(v), Register::Pseudo(a), o, l);
            assert(lifted.targets() == seq![l]);
            lemma_fill(g, label, lifted, allowed);
        },
        rtl::InstrView::EMUnop(op, r, l) => {
            assert(instr.successors()[0] == l);
            let lifted = Instr::EMUnop(op, Register::Pseudo(r), l);
            assert(lifted.targets() == seq![l]);
            lemma_fill(g, label, lifted, allowed);
        },
        rtl::InstrView::EMBinop(op, rs, rd, l) => {
            assert(instr.successors()[0] == l);
            if op == Mbinop::MDiv {
                let back_instr = mov(
                    Register::Physical(PhysicalRegister::Rax),
                    Register::Pseudo(rd),
                    l,
                );
                assert(back_instr.targets() == seq![l]);
                lemma_put(state, back_instr, more);
                match put(state, back_instr) {
                    Ok((s1, back)) => {
                        let div_instr = Instr::EMBinop(
                            Mbinop::MDiv,
                            Register::Pseudo(rs),
                            Register::Physical(PhysicalRegister::Rax),
                            back,
                        );
                        assert(div_instr.targets() == seq![back]);
                        lemma_put(s1, div_instr, more);
                        match put(s1, div_instr) {
                            Ok((s2, div)) => {
                                let first = mov(
                                    Register::Pseudo(rd),
                                    Register::Physical(PhysicalRegister::Rax),
                                    div,
                                );
                                assert(first.targets() == seq![div]);
                                lemma_fill(s2.instrs, label, first, more);
                                let s3 = fill(s2, label, first);
                                lemma_step_both(g, s1.instrs, s2.instrs, more);
                                lemma_step_both(g, s2.instrs, s3.instrs, more);
                                lemma_settle(g, s3.instrs, allowed, more);
                            },
                            Err(_) => {},
                        }
                    },
                    Err(_) => {},
                }
            } else {
                let lifted = Instr::EMBinop(op, Register::Pseudo(rs), Register::Pseudo(rd), l);
                assert(lifted.targets() == seq![l]);
                lemma_fill(g, label, lifted, allowed);
            }
        },
        rtl::InstrView::EMuBranch(op, r, l1, l2) => {
            assert(instr.successors()[0] == l1);
            assert(instr.successors()[1] == l2);
            let lifted = Instr::EMuBranch(op, Register::Pseudo(r), l1, l2);
            assert(lifted.targets() == seq![l1, l2]);
            lemma_fill(g, label, lifted, allowed);
        },
        rtl::InstrView::EMbBranch(op, r1, r2, l1, l2) => {
            assert(instr.successors()[0] == l1);
            assert(instr.successors()[1] == l2);
            let lifted = Instr::EMbBranch(op, Register::Pseudo(r1), Register::Pseudo(r2), l1, l2);
            assert(lifted.targets() == seq![l1, l2]);
            lemma_fill(g, label, lifted, allowed);
        },
        rtl::InstrView::ECall(rd, name, args, l) => {
            assert(instr.successors()[0] == l);
            if args.len() <= 255 {
                let on_stack = if args.len() <= 6 {
                    0
                } else {
                    args.len() - 6
                };
                let in_registers = args.len() - on_stack;
                let clean_instr = Instr::EMUnop(
                    Munop::Maddi((8 * on_stack) as i64),
                    Register::Physical(PhysicalRegister::Rsp),
                    l,
                );
                assert(clean_instr.targets() == seq![l]);
                lemma_put(state, clean_instr, more);
                match put(state, clean_instr) {
                    Ok((s1, clean)) => {
                        let result_instr = mov(
                            Register::Physical(PhysicalRegister::Rax),
                            Register::Pseudo(rd),
                            clean,
                        );
                        assert(result_instr.targets() == seq![clean]);
                        lemma_put(s1, result_instr, more);
                        match put(s1, result_instr) {
                            Ok((s2, result)) => {
                                lemma_step_both(g, s1.instrs, s2.instrs, more);
                                if args.len() == 0 {
                                    let call_instr = Instr::ECall(name, 0, result);
                                    assert(call_instr.targets() == seq![result]);
                                    lemma_fill(s2.instrs, label, call_instr, more);
                                    let s3 = fill(s2, label, call_instr);
                                    lemma_step_both(g, s2.instrs, s3.instrs, more);
                                    lemma_settle(g, s3.instrs, allowed, more);
                                } else {
                                    let call_instr = Instr::ECall(name, in_registers as u8, result);
                                    assert(call_instr.targets() == seq![result]);
                                    lemma_put(s2, call_instr, more);
                                    match put(s2, call_instr) {
                                        Ok((s3, call)) => {
                                            lemma_step_both(g, s2.instrs, s3.instrs, more);
                                            lemma_pass_all(s3, label, args, 0, call, more);
                                            match pass_all_model(s3, label, args, 0, call) {
                                                Ok(s4) => {
                                                    lemma_step_both(
                                                        g,
                                                        s3.instrs,
                                                        s4.instrs,
                                                        more,
                                                    );
                                                    lemma_settle(g, s4.instrs, allowed, more);
                                                },
                                                Err(_) => {},
                                            }
                                        },
                                        Err(_) => {},
                                    }
                                }
                            },
                            Err(_) => {},
                        }
                    },
                    Err(_) => {},
                }
            }
        },
        rtl::InstrView::EGoto(l) => {
            assert(instr.successors()[0] == l);
            let lifted = Instr::EGoto(l);
            assert(lifted.targets() == seq![l]);
            lemma_fill(g, label, lifted, allowed);
        },
    }
}

/// Lowering the instructions at the labels from `order[from]` on is a step,
/// after which each of those labels has an instruction.
pub proof fn lemma_lower_all(
    state: Flow,
    graph: Map<Label, rtl::InstrView>,
    order: Seq<Label>,
    from: nat,
    allowed: Set<Label>,
)
    requires
        forall|l: Label, k: int|
            graph.contains_key(l) && 0 <= k < graph[l].successors().len() ==> allowed.contains(
                #[trigger] graph[l].successors()[k],
            ),
        forall|i: int| 0 <= i < order.len() ==> graph.contains_key(#[trigger] order[i]),
    ensures
        match lower_all_model(state, graph, order, from) {
            Ok(after) => step(state.instrs, after.instrs, allowed) && forall|i: int|
                from <= i < order.len() ==> after.instrs.contains_key(#[trigger] order[i]),
            Err(_) => true,
        },
    decreases order.len() - from,
{
    if from < order.len() {
        let label = order[from as int];
        let instr = graph[label];
        assert forall|k: int| 0 <= k < instr.successors().len() implies known(
            state.instrs,
            allowed,
            #[trigger] instr.successors()[k],
        ) || instr.successors()[k] == label by {
            assert(allowed.contains(graph[label].successors()[k]));
        }
        lemma_ertl_instr(state, label, instr, allowed);
        match ertl_instr_model(state, label, instr) {
            Ok(mid) => {
                lemma_lower_all(mid, graph, order, from + 1, allowed);
                match lower_all_model(mid, graph, order, from + 1) {
                    Ok(after) => {
                        lemma_step_both(state.instrs, mid.instrs, after.instrs, allowed);
                        lemma_step_keeps(mid.instrs, after.instrs, allowed, label);
                    },
                    Err(_) => {},
                }
            },
            Err(_) => {},
        }
    } else {
        lemma_step_none(state.instrs, allowed);
    }
}

/// Drawing the pseudo-registers that keep the callee-saved registers leaves
/// the graph as it is.
pub proof fn lemma_saves(state: Flow, saved: Seq<PseudoRegister>, from: nat)
    ensures
        match saves_model(state, saved, from) {
            Ok((after, _)) => after.instrs == state.instrs,
            Err(_) => true,
        },
    decreases callee_saved().len() - from,
{
    if from < callee_saved().len() {
        match crate::utils::reserve_register(state) {
            Some((mid, register)) => {
                lemma_saves(mid, saved.push(register), from + 1);
            },
            None => {},
        }
    }
}

/// A chain of moves in front of a known label is a step, and its first
/// label is known.
pub proof fn lemma_keep_all(
    state: Flow,
    saved: Seq<PseudoRegister>,
    from: nat,
    restoring: bool,
    next: Label,
    allowed: Set<Label>,
)
    requires
        known(state.instrs, allowed, next),
    ensures
        match keep_all_model(state, saved, from, restoring, next) {
            Ok((after, label)) => step(state.instrs, after.instrs, allowed) && known(
                after.instrs,
                allowed,
                label,
            ),
            Err(_) => true,
        },
    decreases callee_saved().len() - from,
{
    if from < callee_saved().len() {
        let instr = keep_model(saved, from, restoring, next);
        assert(instr.targets() == seq![next]);
        lemma_put(state, instr, allowed);
        match put(state, instr) {
            Ok((mid, placed)) => {
                lemma_keep_all(mid, saved, from + 1, restoring, placed, allowed);
                match keep_all_model(mid, saved, from + 1, restoring, placed) {
                    Ok((after, _)) => {
                        lemma_step_both(state.instrs, mid.instrs, after.instrs, allowed);
                    },
                    Err(_) => {},
                }
            },
            Err(_) => {},
        }
    } else {
        lemma_step_none(state.instrs, allowed);
    }
}

/// A chain that takes the arguments in front of a known label is a step,
/// and its first label is known.
pub proof fn lemma_fetch_all(
    state: Flow,
    args: Seq<PseudoRegister>,
    n: nat,
    next: Label,
    allowed: Set<Label>,
)
    requires
        known(state.instrs, allowed, next),
    ensures
        match fetch_all_model(state, args, n, next) {
            Ok((after, label)) => step(state.instrs, after.instrs, allowed) && known(
                after.instrs,
                allowed,
                label,
            ),
            Err(_) => true,
        },
    decreases n,
{
    if 0 < n <= args.len() {
        let instr = fetch_model((n - 1) as nat, args[n - 1], next);
        assert(instr.targets() == seq![next]);
        lemma_put(state, instr, allowed);
        match put(state, instr) {
            Ok((mid, placed)) => {
                lemma_fetch_all(mid, args, (n - 1) as nat, placed, allowed);
                match fetch_all_model(mid, args, (n - 1) as nat, placed) {
                    Ok((after, _)) => {
                        lemma_step_both(state.instrs, mid.instrs, after.instrs, allowed);
                    },
                    Err(_) => {},
                }
            },
            Err(_) => {},
        }
    } else {
        lemma_step_none(state.instrs, allowed);
    }
}

/// Where control never leaves the graph of an RTL function but to its exit
/// label, it never leaves the body of the function made explicit, and the
/// entry of that function has an instruction.
pub proof fn lemma_ertl_fun_closed(fun: rtl::FunView, supply: Supply, order: Seq<Label>)
    requires
        crate::rtl::laws::closed(fun.graph, set![fun.exit]),
        fun.graph.contains_key(fun.entry) || fun.entry == fun.exit,
        lists(order, fun.graph.dom()),
    ensures
        match ertl_fun_model(fun, supply, order) {
            Ok((lowered, _)) => closed(lowered.body, Set::<Label>::empty())
                && lowered.body.contains_key(lowered.entry),
            Err(_) => true,
        },
{
    let allowed = Set::new(|l: Label| fun.graph.contains_key(l) || l == fun.exit);
    let none = Set::<Label>::empty();
    let s0: Flow = State { instrs: Map::empty(), supply };
    let g = s0.instrs;
    if fun.arguments.len() <= 255 {
        assert forall|l: Label, k: int|
            fun.graph.contains_key(l) && 0 <= k < fun.graph[l].successors().len() implies allowed.contains(
            #[trigger] fun.graph[l].successors()[k],
        ) by {
            assert(fun.graph.contains_key(fun.graph[l].successors()[k]) || set![fun.exit].contains(
                fun.graph[l].successors()[k],
            ));
        }
        assert forall|i: int| 0 <= i < order.len() implies fun.graph.contains_key(
            #[trigger] order[i],
        ) by {
            assert(order.contains(order[i]));
        }
        lemma_lower_all(s0, fun.graph, order, 0, allowed);
        match lower_all_model(s0, fun.graph, order, 0) {
            Ok(s1) => {
                assert forall|l: Label| fun.graph.contains_key(l) implies s1.instrs.contains_key(
                    l,
                ) by {
                    assert(order.contains(l));
                    let i = choose|i: int| 0 <= i < order.len() && order[i] == l;
                    assert(s1.instrs.contains_key(order[i]));
                }
                lemma_saves(s1, Seq::empty(), 0);
                match saves_model(s1, Seq::empty(), 0) {
                    Ok((s2, saved)) => {
                        assert(Instr::EReturn.targets() == Seq::<Label>::empty());
                        lemma_put(s2, Instr::EReturn, allowed);
                        match put(s2, Instr::EReturn) {
                            Ok((s3, ret)) => {
                                assert(Instr::EDeleteFrame(ret).targets() == seq![ret]);
                                lemma_put(s3, Instr::EDeleteFrame(ret), allowed);
                                match put(s3, Instr::EDeleteFrame(ret)) {
                                    Ok((s4, delete)) => {
                                        lemma_step_both(g, s1.instrs, s3.instrs, allowed);
                                        lemma_step_both(g, s3.instrs, s4.instrs, allowed);
                                        lemma_keep_all(s4, saved, 0, true, delete, allowed);
                                        match keep_all_model(s4, saved, 0, true, delete) {
                                            Ok((s5, restore)) => {
                                                lemma_step_both(g, s4.instrs, s5.instrs, allowed);
                                                let out = mov(
                                                    Register::Pseudo(fun.result),
                                                    Register::Physical(PhysicalRegister::Rax),
                                                    restore,
                                                );
                                                assert(out.targets() == seq![restore]);
                                                lemma_fill(s5.instrs, fun.exit, out, allowed);
                                                let s6 = fill(s5, fun.exit, out);
                                                lemma_step_both(g, s5.instrs, s6.instrs, allowed);
                                                lemma_fetch_all(
                                                    s6,
                                                    fun.arguments,
                                                    fun.arguments.len(),
                                                    fun.entry,
                                                    allowed,
                                                );
                                                match fetch_all_model(
                                                    s6,
                                                    fun.arguments,
                                                    fun.arguments.len(),
                                                    fun.entry,
                                                ) {
                                                    Ok((s7, fetch)) => {
                                                        lemma_step_both(
                                                            g,
                                                            s6.instrs,
                                                            s7.instrs,
                                                            allowed,
                                                        );
                                                        lemma_keep_all(
                                                            s7,
                                                            saved,
                                                            0,
                                                            false,
                                                            fetch,
                                                            allowed,
                                                        );
                                                        match keep_all_model(
                                                            s7,
                                                            saved,
                                                            0,
                                                            false,
                                                            fetch,
                                                        ) {
                                                            Ok((s8, save)) => {
                                                                lemma_step_both(
                                                                    g,
                                                                    s7.instrs,
                                                                    s8.instrs,
                                                                    allowed,
                                                                );
                                                                let alloc = Instr::EAllocFrame(
                                                                    save,
                                                                );
                                                                assert(alloc.targets() == seq![
                                                                    save,
                                                                ]);
                                                                lemma_put(s8, alloc, allowed);
                                                                match put(s8, alloc) {
                                                                    Ok((s9, entry)) => {
                                                                        lemma_step_both(
                                                                            g,
                                                                            s8.instrs,
                                                                            s9.instrs,
                                                                            allowed,
                                                                        );
                                                                        assert forall|
                                                                            l: Label,
                                                                        |
                                                                            allowed.contains(
                                                                                l,
                                                                            ) implies none.contains(
                                                                            l,
                                                                        )
                                                                            || s9.instrs.contains_key(
                                                                            l,
                                                                        ) by {
                                                                            if l == fun.exit {
                                                                                lemma_step_keeps(
                                                                                    s6.instrs,
                                                                                    s7.instrs,
                                                                                    allowed,
                                                                                    l,
                                                                                );
                                                                            } else {
                                                                                lemma_step_keeps(
                                                                                    s1.instrs,
                                                                                    s3.instrs,
                                                                                    allowed,
                                                                                    l,
                                                                                );
                                                                                lemma_step_keeps(
                                                                                    s3.instrs,
                                                                                    s4.instrs,
                                                                                    allowed,
                                                                                    l,
                                                                                );
                                                                                lemma_step_keeps(
                                                                                    s4.instrs,
                                                                                    s5.instrs,
                                                                                    allowed,
                                                                                    l,
                                                                                );
                                                                                lemma_step_keeps(
                                                                                    s5.instrs,
                                                                                    s6.instrs,
                                                                                    allowed,
                                                                                    l,
                                                                                );
                                                                                lemma_step_keeps(
                                                                                    s6.instrs,
                                                                                    s7.instrs,
                                                                                    allowed,
                                                                                    l,
                                                                                );
                                                                            }
                                                                            lemma_step_keeps(
                                                                                s7.instrs,
                                                                                s8.instrs,
                                                                                allowed,
                                                                                l,
                                                                            );
                                                                            lemma_step_keeps(
                                                                                s8.instrs,
                                                                                s9.instrs,
                                                                                allowed,
                                                                                l,
                                                                            );
                                                                        }
                                                                        lemma_settle(
                                                                            g,
                                                                            s9.instrs,
                                                                            none,
                                                                            allowed,
                                                                        );
                                                                        reveal(step);
                                                                    },
                                                                    Err(_) => {},
                                                                }
                                                            },
                                                            Err(_) => {},
                                                        }
                                                    },
                                                    Err(_) => {},
                                                }
                                            },
                                            Err(_) => {},
                                        }
                                    },
                                    Err(_) => {},
                                }
                            },
                            Err(_) => {},
                        }
                    },
                    Err(_) => {},
                }
            },
            Err(_) => {},
        }
    }
}

} // verus!

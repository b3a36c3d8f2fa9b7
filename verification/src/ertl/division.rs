use crate::ertl::model::{
    ertl_fun_model, ertl_instr_model, fetch_all_model, fetch_model, keep_all_model, keep_model,
    lower_all_model, mov, pass_all_model, pass_model, put, saves_model, Flow,
};
use crate::ertl::structure::register::{PhysicalRegister, Register};
use crate::ertl::structure::{Instr, Label, Mbinop, Munop};
use crate::rtl::structure as rtl;
use crate::rtl::structure::register::PseudoRegister;
use crate::rtl::structure::Supply;
use crate::utils::{emit, fill, State};
use vstd::prelude::*;

verus! {

/// `instr` is no division, or it divides the result register.
pub open spec fn divides_result(instr: Instr) -> bool {
    match instr {
        Instr::EMBinop(op, _, rd, _) => op == Mbinop::MDiv ==> rd == Register::Physical(
            PhysicalRegister::Rax,
        ),
        _ => true,
    }
}

/// Every division of `graph` divides the result register.
pub open spec fn divisions_fit(graph: Map<Label, Instr>) -> bool {
    forall|l: Label| graph.contains_key(l) ==> divides_result(#[trigger] graph[l])
}

/// Putting an instruction that is no division elsewhere keeps the
/// divisions where they belong.
pub proof fn lemma_put_fits(state: Flow, instr: Instr)
    requires
        divisions_fit(state.instrs),
        divides_result(instr),
    ensures
        match put(state, instr) {
            Ok((after, _)) => divisions_fit(after.instrs),
            Err(_) => true,
        },
        forall|at: Label| divisions_fit(#[trigger] fill(state, at, instr).instrs),
{
    match emit(state, instr) {
        Some((after, label)) => {
            assert forall|l: Label| after.instrs.contains_key(l) implies divides_result(
                #[trigger] after.instrs[l],
            ) by {
                if l != label {
                    assert(state.instrs.contains_key(l));
                }
            }
        },
        None => {},
    }
    assert forall|at: Label| divisions_fit(#[trigger] fill(state, at, instr).instrs) by {
        let after = fill(state, at, instr);
        assert forall|l: Label| after.instrs.contains_key(l) implies divides_result(
            #[trigger] after.instrs[l],
        ) by {
            if l != at {
                assert(state.instrs.contains_key(l));
            }
        }
    }
}

/// Handing over the arguments of a call keeps the divisions where they
/// belong.
pub proof fn lemma_pass_all_fits(
    state: Flow,
    label: Label,
    args: Seq<PseudoRegister>,
    from: nat,
    next: Label,
)
    requires
        divisions_fit(state.instrs),
    ensures
        match pass_all_model(state, label, args, from, next) {
            Ok(after) => divisions_fit(after.instrs),
            Err(_) => true,
        },
    decreases args.len() - from,
{
    if from < args.len() {
        let instr = pass_model(from, args[from as int], next);
        lemma_put_fits(state, instr);
        if from + 1 < args.len() {
            match put(state, instr) {
                Ok((after, placed)) => {
                    lemma_pass_all_fits(after, label, args, from + 1, placed);
                },
                Err(_) => {},
            }
        } else {
            assert(divisions_fit(fill(state, label, instr).instrs));
        }
    }
}

/// Making one RTL instruction explicit keeps the divisions where they
/// belong: a division is rewritten to divide the result register.
pub proof fn lemma_ertl_instr_fits(state: Flow, label: Label, instr: rtl::InstrView)
    requires
        divisions_fit(state.instrs),
    ensures
        match ertl_instr_model(state, label, instr) {
            Ok(after) => divisions_fit(after.instrs),
            Err(_) => true,
        },
{
    let rax = Register::Physical(PhysicalRegister::Rax);
    match instr {
        rtl::InstrView::EConst(x, r, l) => {
            lemma_put_fits(state, Instr::EConst(x, Register::Pseudo(r), l));
        },
        rtl::InstrView::ELoad(a, o, d, l) => {
            lemma_put_fits(state, Instr::ELoad(Register::Pseudo(a), o, Register::Pseudo(d), l));
        },
        rtl::InstrView::EStore(v, a, o, l) => {
            lemma_put_fits(state, Instr::EStore(Register::Pseudo(v), Register::Pseudo(a), o, l));
        },
        rtl::InstrView::EMUnop(op, r, l) => {
            lemma_put_fits(state, Instr::EMUnop(op, Register::Pseudo(r), l));
        },
        rtl::InstrView::EMBinop(op, rs, rd, l) => {
            if op == Mbinop::MDiv {
                let back = mov(rax, Register::Pseudo(rd), l);
                lemma_put_fits(state, back);
                match put(state, back) {
                    Ok((s1, at_back)) => {
                        let div = Instr::EMBinop(Mbinop::MDiv, Register::Pseudo(rs), rax, at_back);
                        lemma_put_fits(s1, div);
                        match put(s1, div) {
                            Ok((s2, at_div)) => {
                                lemma_put_fits(s2, mov(Register::Pseudo(rd), rax, at_div));
                            },
                            Err(_) => {},
                        }
                    },
                    Err(_) => {},
                }
            } else {
                lemma_put_fits(
                    state,
                    Instr::EMBinop(op, Register::Pseudo(rs), Register::Pseudo(rd), l),
                );
            }
        },
        rtl::InstrView::EMuBranch(op, r, l1, l2) => {
            lemma_put_fits(state, Instr::EMuBranch(op, Register::Pseudo(r), l1, l2));
        },
        rtl::InstrView::EMbBranch(op, r1, r2, l1, l2) => {
            lemma_put_fits(
                state,
                Instr::EMbBranch(op, Register::Pseudo(r1), Register::Pseudo(r2), l1, l2),
            );
        },
        rtl::InstrView::ECall(rd, name, args, l) => {
            if args.len() <= 255 {
                let on_stack = if args.len() <= 6 {
                    0
                } else {
                    args.len() - 6
                };
                let in_registers = args.len() - on_stack;
                let clean = Instr::EMUnop(
                    Munop::Maddi((8 * on_stack) as i64),
                    Register::Physical(PhysicalRegister::Rsp),
                    l,
                );
                lemma_put_fits(state, clean);
                match put(state, clean) {
                    Ok((s1, at_clean)) => {
                        let result = mov(rax, Register::Pseudo(rd), at_clean);
                        lemma_put_fits(s1, result);
                        match put(s1, result) {
                            Ok((s2, at_result)) => {
                                if args.len() == 0 {
                                    lemma_put_fits(s2, Instr::ECall(name, 0, at_result));
                                } else {
                                    let call = Instr::ECall(name, in_registers as u8, at_result);
                                    lemma_put_fits(s2, call);
                                    match put(s2, call) {
                                        Ok((s3, at_call)) => {
                                            lemma_pass_all_fits(s3, label, args, 0, at_call);
                                        },
                                        Err(_) => {},
                                    }
                                }
                            },
                            Err(_) => {},
                        }
                    },
                    Err(_) => {},
                }
            }
        },
        rtl::InstrView::EGoto(l) => {
            lemma_put_fits(state, Instr::EGoto(l));
        },
    }
}

/// Making the instructions of a graph explicit keeps the divisions where
/// they belong.
pub proof fn lemma_lower_all_fits(
    state: Flow,
    graph: Map<Label, rtl::InstrView>,
    order: Seq<Label>,
    from: nat,
)
    requires
        divisions_fit(state.instrs),
    ensures
        match lower_all_model(state, graph, order, from) {
            Ok(after) => divisions_fit(after.instrs),
            Err(_) => true,
        },
    decreases order.len() - from,
{
    if from < order.len() {
        lemma_ertl_instr_fits(state, order[from as int], graph[order[from as int]]);
        match ertl_instr_model(state, order[from as int], graph[order[from as int]]) {
            Ok(after) => {
                lemma_lower_all_fits(after, graph, order, from + 1);
            },
            Err(_) => {},
        }
    }
}

/// Drawing the registers that keep the callee-saved ones changes no
/// instruction.
pub proof fn lemma_saves_fits(state: Flow, saved: Seq<PseudoRegister>, from: nat)
    ensures
        match saves_model(state, saved, from) {
            Ok((after, _)) => after.instrs == state.instrs,
            Err(_) => true,
        },
    decreases crate::ertl::structure::register::callee_saved().len() - from,
{
    if from < crate::ertl::structure::register::callee_saved().len() {
        match crate::utils::reserve_register(state) {
            Some((next, register)) => {
                lemma_saves_fits(next, saved.push(register), from + 1);
            },
            None => {},
        }
    }
}

/// Keeping or restoring the callee-saved registers keeps the divisions
/// where they belong.
pub proof fn lemma_keep_all_fits(
    state: Flow,
    saved: Seq<PseudoRegister>,
    from: nat,
    restoring: bool,
    next: Label,
)
    requires
        divisions_fit(state.instrs),
    ensures
        match keep_all_model(state, saved, from, restoring, next) {
            Ok((after, _)) => divisions_fit(after.instrs),
            Err(_) => true,
        },
    decreases crate::ertl::structure::register::callee_saved().len() - from,
{
    if from < crate::ertl::structure::register::callee_saved().len() {
        let instr = keep_model(saved, from, restoring, next);
        lemma_put_fits(state, instr);
        match put(state, instr) {
            Ok((after, placed)) => {
                lemma_keep_all_fits(after, saved, from + 1, restoring, placed);
            },
            Err(_) => {},
        }
    }
}

/// Fetching the arguments keeps the divisions where they belong.
pub proof fn lemma_fetch_all_fits(state: Flow, args: Seq<PseudoRegister>, n: nat, next: Label)
    requires
        divisions_fit(state.instrs),
    ensures
        match fetch_all_model(state, args, n, next) {
            Ok((after, _)) => divisions_fit(after.instrs),
            Err(_) => true,
        },
    decreases n,
{
    if 0 < n <= args.len() {
        let instr = fetch_model((n - 1) as nat, args[n - 1], next);
        lemma_put_fits(state, instr);
        match put(state, instr) {
            Ok((after, placed)) => {
                lemma_fetch_all_fits(after, args, (n - 1) as nat, placed);
            },
            Err(_) => {},
        }
    }
}

/// In a function made explicit every division divides the result
/// register, whatever the RTL function was.
pub proof fn lemma_ertl_fun_divides(fun: rtl::FunView, supply: Supply, order: Seq<Label>)
    ensures
        match ertl_fun_model(fun, supply, order) {
            Ok((lowered, _)) => divisions_fit(lowered.body),
            Err(_) => true,
        },
{
    let rax = Register::Physical(PhysicalRegister::Rax);
    let s0: Flow = State { instrs: Map::empty(), supply };
    if fun.arguments.len() <= 255 {
        lemma_lower_all_fits(s0, fun.graph, order, 0);
        match lower_all_model(s0, fun.graph, order, 0) {
            Ok(s1) => {
                lemma_saves_fits(s1, Seq::empty(), 0);
                match saves_model(s1, Seq::empty(), 0) {
                    Ok((s2, saved)) => {
                        lemma_put_fits(s2, Instr::EReturn);
                        match put(s2, Instr::EReturn) {
                            Ok((s3, ret)) => {
                                lemma_put_fits(s3, Instr::EDeleteFrame(ret));
                                match put(s3, Instr::EDeleteFrame(ret)) {
                                    Ok((s4, delete)) => {
                                        lemma_keep_all_fits(s4, saved, 0, true, delete);
                                        match keep_all_model(s4, saved, 0, true, delete) {
                                            Ok((s5, restore)) => {
                                                let out = mov(
                                                    Register::Pseudo(fun.result),
                                                    rax,
                                                    restore,
                                                );
                                                lemma_put_fits(s5, out);
                                                let s6 = fill(s5, fun.exit, out);
                                                lemma_fetch_all_fits(
                                                    s6,
                                                    fun.arguments,
                                                    fun.arguments.len(),
                                                    fun.entry,
                                                );
                                                match fetch_all_model(
                                                    s6,
                                                    fun.arguments,
                                                    fun.arguments.len(),
                                                    fun.entry,
                                                ) {
                                                    Ok((s7, fetch)) => {
                                                        lemma_keep_all_fits(
                                                            s7,
                                                            saved,
                                                            0,
                                                            false,
                                                            fetch,
                                                        );
                                                        match keep_all_model(
                                                            s7,
                                                            saved,
                                                            0,
                                                            false,
                                                            fetch,
                                                        ) {
                                                            Ok((s8, save)) => {
                                                                lemma_put_fits(
                                                                    s8,
                                                                    Instr::EAllocFrame(save),
                                                                );
                                                            },
                                                            Err(_) => {},
                                                        }
                                                    },
                                                    Err(_) => {},
                                                }
                                            },
                                            Err(_) => {},
                                        }
                                    },
                                    Err(_) => {},
                                }
                            },
                            Err(_) => {},
                        }
                    },
                    Err(_) => {},
                }
            },
            Err(_) => {},
        }
    }
}

} // verus!

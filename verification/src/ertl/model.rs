
use crate::ertl::error::ErtlError;
use crate::ertl::structure::register::{callee_saved, parameters, PhysicalRegister, Register};
use crate::ertl::structure::{FunView, Instr, Label, Mbinop, Munop};
use crate::rtl::structure as rtl;
use crate::rtl::structure::register::PseudoRegister;
use crate::rtl::structure::Supply;
use crate::utils::{emit, fill, reserve_register, State};
use vstd::prelude::*;

verus! {

pub type Flow = State<Instr>;

/// The state after a fresh label has been given `instr`, with that label.
pub open spec fn put(state: Flow, instr: Instr) -> Result<(Flow, Label), ErtlError> {
    match emit(state, instr) {
        Some(placed) => Ok(placed),
        None => Err(ErtlError::Exhausted),
    }
}

/// `mov src, dest`, then on to `next`.
pub open spec fn mov(src: Register, dest: Register, next: Label) -> Instr {
    Instr::EMBinop(Mbinop::MMov, src, dest, next)
}

/// The instruction that hands over the argument of index `index`: a move
/// into its register for the first six, a push for the others.
pub open spec fn pass_model(index: nat, arg: PseudoRegister, next: Label) -> Instr {
    if index < 6 {
        mov(Register::Pseudo(arg), Register::Physical(parameters()[index as int]), next)
    } else {
        Instr::EPushParam(Register::Pseudo(arg), next)
    }
}

/// The instruction with which a function takes its argument of index `index`.
pub open spec fn fetch_model(index: nat, arg: PseudoRegister, next: Label) -> Instr {
    if index < 6 {
        mov(Register::Physical(parameters()[index as int]), Register::Pseudo(arg), next)
    } else {
        Instr::EGetParam(index as u8, Register::Pseudo(arg), next)
    }
}

/// The handing over of the arguments from `args[from]` on. Each is put in
/// front of the one before it, so that the last argument is handed over
/// first; its instruction stands at `label`.
pub open spec fn pass_all_model(
    state: Flow,
    label: Label,
    args: Seq<PseudoRegister>,
    from: nat,
    next: Label,
) -> Result<Flow, ErtlError>
    decreases args.len() - from,
{
    if from + 1 < args.len() {
        match put(state, pass_model(from, args[from as int], next)) {
            Ok((state, placed)) => pass_all_model(state, label, args, from + 1, placed),
            Err(error) => Err(error),
        }
    } else if from + 1 == args.len() {
        Ok(fill(state, label, pass_model(from, args[from as int], next)))
    } else {
        Ok(state)
    }
}

/// What becomes of the RTL instruction `instr` that stands at `label`.
pub open spec fn ertl_instr_model(state: Flow, label: Label, instr: rtl::InstrView) -> Result<
    Flow,
    ErtlError,
> {
    match instr {
        rtl::InstrView::EConst(x, r, l) => Ok(
            fill(state, label, Instr::EConst(x, Register::Pseudo(r), l)),
        ),
        rtl::InstrView::ELoad(a, o, d, l) => Ok(
            fill(state, label, Instr::ELoad(Register::Pseudo(a), o, Register::Pseudo(d), l)),
        ),
        rtl::InstrView::EStore(v, a, o, l) => Ok(
            fill(state, label, Instr::EStore(Register::Pseudo(v), Register::Pseudo(a), o, l)),
        ),
        rtl::InstrView::EMUnop(op, r, l) => Ok(
            fill(state, label, Instr::EMUnop(op, Register::Pseudo(r), l)),
        ),
        rtl::InstrView::EMBinop(op, rs, rd, l) => if op == Mbinop::MDiv {
            match put(
                state,
                mov(Register::Physical(PhysicalRegister::Rax), Register::Pseudo(rd), l),
            ) {
                Ok((state, back)) => match put(
                    state,
                    Instr::EMBinop(
                        Mbinop::MDiv,
                        Register::Pseudo(rs),
                        Register::Physical(PhysicalRegister::Rax),
                        back,
                    ),
                ) {
                    Ok((state, div)) => Ok(
                        fill(
                            state,
                            label,
                            mov(
                                Register::Pseudo(rd),
                                Register::Physical(PhysicalRegister::Rax),
                                div,
                            ),
                        ),
                    ),
                    Err(error) => Err(error),
                },
                Err(error) => Err(error),
            }
        } else {
            Ok(
                fill(
                    state,
                    label,
                    Instr::EMBinop(op, Register::Pseudo(rs), Register::Pseudo(rd), l),
                ),
            )
        },
        rtl::InstrView::EMuBranch(op, r, l1, l2) => Ok(
            fill(state, label, Instr::EMuBranch(op, Register::Pseudo(r), l1, l2)),
        ),
        rtl::InstrView::EMbBranch(op, r1, r2, l1, l2) => Ok(
            fill(
                state,
                label,
                Instr::EMbBranch(op, Register::Pseudo(r1), Register::Pseudo(r2), l1, l2),
            ),
        ),
        rtl::InstrView::ECall(rd, name, args, l) => if args.len() > 255 {
            Err(ErtlError::TooManyArguments(name))
        } else {
            let on_stack = if args.len() <= 6 {
                0
            } else {
                args.len() - 6
            };
            let in_registers = args.len() - on_stack;
            match put(
                state,
                Instr::EMUnop(
                    Munop::Maddi((8 * on_stack) as i64),
                    Register::Physical(PhysicalRegister::Rsp),
                    l,
                ),
            ) {
                Ok((state, clean)) => match put(
                    state,
                    mov(Register::Physical(PhysicalRegister::Rax), Register::Pseudo(rd), clean),
                ) {
                    Ok((state, result)) => if args.len() == 0 {
                        Ok(fill(state, label, Instr::ECall(name, 0, result)))
                    } else {
                        match put(state, Instr::ECall(name, in_registers as u8, result)) {
                            Ok((state, call)) => pass_all_model(state, label, args, 0, call),
                            Err(error) => Err(error),
                        }
                    },
                    Err(error) => Err(error),
                },
                Err(error) => Err(error),
            }
        },
        rtl::InstrView::EGoto(l) => Ok(fill(state, label, Instr::EGoto(l))),
    }
}

/// The instructions of `graph` at the labels from `order[from]` on, each
/// lowered in turn.
pub open spec fn lower_all_model(
    state: Flow,
    graph: Map<Label, rtl::InstrView>,
    order: Seq<Label>,
    from: nat,
) -> Result<Flow, ErtlError>
    decreases order.len() - from,
{
    if from < order.len() {
        match ertl_instr_model(state, order[from as int], graph[order[from as int]]) {
            Ok(state) => lower_all_model(state, graph, order, from + 1),
            Err(error) => Err(error),
        }
    } else {
        Ok(state)
    }
}

/// One fresh pseudo-register for each callee-saved register from the one of
/// index `from` on; `saved` holds those drawn before.
pub open spec fn saves_model(state: Flow, saved: Seq<PseudoRegister>, from: nat) -> Result<
    (Flow, Seq<PseudoRegister>),
    ErtlError,
>
    decreases callee_saved().len() - from,
{
    if from < callee_saved().len() {
        match reserve_register(state) {
            Some((state, register)) => saves_model(state, saved.push(register), from + 1),
            None => Err(ErtlError::Exhausted),
        }
    } else {
        Ok((state, saved))
    }
}

/// The move between the callee-saved register of index `index` and the
/// pseudo-register that keeps its value: into the machine register when
/// `restoring`, out of it otherwise.
pub open spec fn keep_model(
    saved: Seq<PseudoRegister>,
    index: nat,
    restoring: bool,
    next: Label,
) -> Instr {
    if restoring {
        mov(
            Register::Pseudo(saved[index as int]),
            Register::Physical(callee_saved()[index as int]),
            next,
        )
    } else {
        mov(
            Register::Physical(callee_saved()[index as int]),
            Register::Pseudo(saved[index as int]),
            next,
        )
    }
}

/// A chain of such moves for the callee-saved registers from the one of
/// index `from` on, each put in front of the one before it; the label of
/// the last one put comes back.
pub open spec fn keep_all_model(
    state: Flow,
    saved: Seq<PseudoRegister>,
    from: nat,
    restoring: bool,
    next: Label,
) -> Result<(Flow, Label), ErtlError>
    decreases callee_saved().len() - from,
{
    if from < callee_saved().len() {
        match put(state, keep_model(saved, from, restoring, next)) {
            Ok((state, placed)) => keep_all_model(state, saved, from + 1, restoring, placed),
            Err(error) => Err(error),
        }
    } else {
        Ok((state, next))
    }
}

/// A chain that takes the first `n` arguments, the last of them put first,
/// so that the argument of index 0 is taken first.
pub open spec fn fetch_all_model(state: Flow, args: Seq<PseudoRegister>, n: nat, next: Label) -> Result<
    (Flow, Label),
    ErtlError,
>
    decreases n,
{
    if 0 < n <= args.len() {
        match put(state, fetch_model((n - 1) as nat, args[n - 1], next)) {
            Ok((state, placed)) => fetch_all_model(state, args, (n - 1) as nat, placed),
            Err(error) => Err(error),
        }
    } else {
        Ok((state, next))
    }
}

/// The locals of an RTL function as registers of the ERTL.
pub open spec fn locals_model(locals: Seq<(rtl::BlockIdent, PseudoRegister)>) -> Seq<Register> {
    Seq::new(locals.len(), |i: int| Register::Pseudo(locals[i].1))
}

/// The function `fun` with its calling convention made explicit; `order` is
/// the order in which its instructions are lowered.
///
/// At the exit label the result goes to `Rax`, the callee-saved registers
/// get their values back, the frame is deleted and the function returns.
/// In front of the old entry the arguments are taken; in front of that the
/// callee-saved registers are kept; in front of that the frame is made.
pub open spec fn ertl_fun_model(fun: rtl::FunView, supply: Supply, order: Seq<Label>) -> Result<
    (FunView, Supply),
    ErtlError,
> {
    if fun.arguments.len() > 255 {
        Err(ErtlError::TooManyArguments(fun.name))
    } else {
        match lower_all_model(State { instrs: Map::empty(), supply }, fun.graph, order, 0) {
            Ok(state) => match saves_model(state, Seq::empty(), 0) {
                Ok((state, saved)) => match put(state, Instr::EReturn) {
                    Ok((state, ret)) => match put(state, Instr::EDeleteFrame(ret)) {
                        Ok((state, delete)) => match keep_all_model(state, saved, 0, true, delete) {
                            Ok((state, restore)) => match fetch_all_model(
                                fill(
                                    state,
                                    fun.exit,
                                    mov(
                                        Register::Pseudo(fun.result),
                                        Register::Physical(PhysicalRegister::Rax),
                                        restore,
                                    ),
                                ),
                                fun.arguments,
                                fun.arguments.len(),
                                fun.entry,
                            ) {
                                Ok((state, fetch)) => match keep_all_model(
                                    state,
                                    saved,
                                    0,
                                    false,
                                    fetch,
                                ) {
                                    Ok((state, save)) => match put(
                                        state,
                                        Instr::EAllocFrame(save),
                                    ) {
                                        Ok((state, entry)) => Ok(
                                            (
                                                FunView {
                                                    name: fun.name,
                                                    argument_count: fun.arguments.len() as u8,
                                                    locals: locals_model(fun.locals),
                                                    entry,
                                                    body: state.instrs,
                                                },
                                                state.supply,
                                            ),
                                        ),
                                        Err(error) => Err(error),
                                    },
                                    Err(error) => Err(error),
                                },
                                Err(error) => Err(error),
                            },
                            Err(error) => Err(error),
                        },
                        Err(error) => Err(error),
                    },
                    Err(error) => Err(error),
                },
                Err(error) => Err(error),
            },
            Err(error) => Err(error),
        }
    }
}

/// The order in which the instructions of each function of `funs` are
/// lowered: by ascending label.
pub open spec fn orders_of(funs: Seq<rtl::FunView>) -> Seq<Seq<Label>> {
    Seq::new(funs.len(), |i: int| crate::utils::ordered(funs[i].graph.dom()))
}

/// The functions from `funs[from]` on, each made explicit in turn; `done`
/// holds those before.
pub open spec fn ertl_file_model(
    funs: Seq<rtl::FunView>,
    supply: Supply,
    orders: Seq<Seq<Label>>,
    done: Seq<FunView>,
    from: nat,
) -> Result<(Seq<FunView>, Supply), ErtlError>
    decreases funs.len() - from,
{
    if from < funs.len() {
        match ertl_fun_model(funs[from as int], supply, orders[from as int]) {
            Ok((fun, supply)) => ertl_file_model(funs, supply, orders, done.push(fun), from + 1),
            Err(error) => Err(error),
        }
    } else {
        Ok((done, supply))
    }
}

} // verus!

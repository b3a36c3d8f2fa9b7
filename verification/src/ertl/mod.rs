pub mod error;
pub mod division;
pub mod laws;
pub mod model;
pub mod structure;

use crate::ertl::error::ErtlError;
use crate::ertl::model::{
    ertl_file_model, ertl_fun_model, ertl_instr_model, fetch_all_model, fetch_model,
    keep_all_model, locals_model, lower_all_model, mov, orders_of, pass_all_model, pass_model, put,
    saves_model, Flow,
};
use crate::ertl::structure::register::{
    callee_save, callee_saved, parameter, PhysicalRegister, Register, CALLEE_SAVED_COUNT,
    PARAMETER_COUNT, RESULT,
};
use crate::ertl::structure::{File, Fun, FunView, Graph, Instr, Label};
use crate::rtl::structure as rtl;
use crate::rtl::structure::register::PseudoRegister;
use crate::rtl::structure::{Fresh, Mbinop, Munop, Supply};
use crate::utils::{enumerate_items, ordered, State};
use vstd::prelude::*;

verus! {

pub type ErtlResult<T> = Result<T, ErtlError>;

/// The graph and the counters as one value of the model.
pub open spec fn state_of(graph: Graph, supply: Supply) -> Flow {
    State { instrs: graph@, supply }
}

/// Puts `instr` at a fresh label, or fails with `Exhausted`.
pub fn place(graph: &mut Graph, supply: &mut Supply, instr: Instr) -> (r: ErtlResult<Label>)
    ensures
        match put(state_of(*old(graph), *old(supply)), instr) {
            Ok((state, label)) => r == Ok::<Label, ErtlError>(label) && state_of(
                *final(graph),
                *final(supply),
            ) == state,
            Err(error) => r == Err::<Label, ErtlError>(error),
        },
{
    match graph.insert(supply, instr) {
        Some(label) => Ok(label),
        None => Err(ErtlError::Exhausted),
    }
}

/// `mov src, dest`, then on to `next`.
pub fn move_instr(src: Register, dest: Register, next: Label) -> (r: Instr)
    ensures
        r == mov(src, dest, next),
{
    Instr::EMBinop(Mbinop::MMov, src, dest, next)
}

/// The instruction that hands over the argument of index `index`.
pub fn pass(index: usize, arg: PseudoRegister, next: Label) -> (r: Instr)
    ensures
        r == pass_model(index as nat, arg, next),
{
    if index < PARAMETER_COUNT {
        move_instr(Register::Pseudo(arg), Register::Physical(parameter(index)), next)
    } else {
        Instr::EPushParam(Register::Pseudo(arg), next)
    }
}

/// The instruction with which a function takes its argument of index `index`.
pub fn fetch(index: u8, arg: PseudoRegister, next: Label) -> (r: Instr)
    ensures
        r == fetch_model(index as nat, arg, next),
{
    if (index as usize) < PARAMETER_COUNT {
        move_instr(Register::Physical(parameter(index as usize)), Register::Pseudo(arg), next)
    } else {
        Instr::EGetParam(index, Register::Pseudo(arg), next)
    }
}

/// Makes the calling convention explicit in every function of `file`, in the
/// order of the file. The instructions of each function are lowered by
/// ascending label.
pub fn ertl_file(file: &rtl::File, supply: &mut Supply) -> (r: ErtlResult<File>)
    ensures
        match ertl_file_model(file@, *old(supply), orders_of(file@), Seq::empty(), 0) {
            Ok((funs, next)) => r is Ok && r->Ok_0@ == funs && *final(supply) == next,
            Err(error) => r is Err && r->Err_0 == error,
        },
{
    let ghost all = orders_of(file@);
    let mut funs: Vec<Fun> = Vec::new();
    let mut i: usize = 0;
    assert(Seq::new(funs@.len(), |k: int| funs@[k]@) =~= Seq::<FunView>::empty());
    while i < file.funs.len()
        invariant
            i <= file.funs@.len(),
            file@.len() == file.funs@.len(),
            all == orders_of(file@),
            ertl_file_model(file@, *old(supply), all, Seq::empty(), 0) == ertl_file_model(
                file@,
                *supply,
                all,
                Seq::new(funs@.len(), |k: int| funs@[k]@),
                i as nat,
            ),
        decreases file.funs@.len() - i,
    {
        let ghost before = Seq::new(funs@.len(), |k: int| funs@[k]@);
        assert(file@[i as int] == file.funs@[i as int]@);
        assert(all[i as int] == ordered(file.funs@[i as int]@.graph.dom()));
        let fun = ertl_fun(&file.funs[i], supply)?;
        funs.push(fun);
        assert(Seq::new(funs@.len(), |k: int| funs@[k]@) =~= before.push(fun@));
        i = i + 1;
    }
    let lowered = File::new(funs);
    assert(lowered@ =~= Seq::new(funs@.len(), |k: int| funs@[k]@));
    Ok(lowered)
}

/// Makes the calling convention explicit in `fun`. Its instructions are
/// lowered by ascending label.
pub fn ertl_fun(fun: &rtl::Fun, supply: &mut Supply) -> (r: ErtlResult<Fun>)
    ensures
        match ertl_fun_model(fun@, *old(supply), ordered(fun@.graph.dom())) {
            Ok((lowered, next)) => r is Ok && r->Ok_0@ == lowered && *final(supply) == next,
            Err(error) => r is Err && r->Err_0 == error,
        },
{
    let order = fun.graph.labels();
    proof {
        assert forall|k: int| 0 <= k < order@.len() implies fun@.graph.contains_key(
            #[trigger] order@[k],
        ) by {
            assert(order@.contains(order@[k]));
        }
    }
    ertl_fun_in(fun, supply, &order)
}

/// Makes the calling convention explicit in `fun`, lowering its instructions
/// in the order `order`.
pub fn ertl_fun_in(fun: &rtl::Fun, supply: &mut Supply, order: &Vec<Label>) -> (r: ErtlResult<Fun>)
    requires
        forall|i: int| 0 <= i < order@.len() ==> fun@.graph.contains_key(#[trigger] order@[i]),
    ensures
        match ertl_fun_model(fun@, *old(supply), order@) {
            Ok((lowered, next)) => r is Ok && r->Ok_0@ == lowered && *final(supply) == next,
            Err(error) => r is Err && r->Err_0 == error,
        },
{
    if fun.arguments.len() > 255 {
        return Err(ErtlError::TooManyArguments(fun.name));
    }
    let mut body = Graph::new();
    lower_all(&mut body, supply, &fun.graph, order)?;
    let saved = saves(&body, supply)?;
    let return_label = place(&mut body, supply, Instr::EReturn)?;
    let delete_label = place(&mut body, supply, Instr::EDeleteFrame(return_label))?;
    let restore_label = keep_all(&mut body, supply, &saved, true, delete_label)?;
    body.insert_at_label(
        fun.exit,
        move_instr(Register::Pseudo(fun.result), Register::Physical(RESULT), restore_label),
    );
    let fetch_label = fetch_all(&mut body, supply, &fun.arguments, fun.entry)?;
    let save_label = keep_all(&mut body, supply, &saved, false, fetch_label)?;
    let entry = place(&mut body, supply, Instr::EAllocFrame(save_label))?;
    let mut locals: Vec<Register> = Vec::new();
    let mut k: usize = 0;
    while k < fun.locals.len()
        invariant
            k <= fun.locals@.len(),
            locals@.len() == k,
            forall|m: int| 0 <= m < k ==> locals@[m] == Register::Pseudo(fun.locals@[m].1),
        decreases fun.locals@.len() - k,
    {
        locals.push(Register::Pseudo(fun.locals[k].1));
        k = k + 1;
    }
    assert(locals@ =~= locals_model(fun.locals@));
    Ok(Fun::new(fun.name, fun.arguments.len() as u8, locals, entry, body))
}

/// Lowers the instructions of `graph` at the labels of `order`, in turn.
pub fn lower_all(body: &mut Graph, supply: &mut Supply, graph: &rtl::graph::Graph, order: &Vec<Label>) -> (r:
    ErtlResult<()>)
    requires
        forall|i: int| 0 <= i < order@.len() ==> graph@.contains_key(#[trigger] order@[i]),
    ensures
        match lower_all_model(state_of(*old(body), *old(supply)), graph@, order@, 0) {
            Ok(state) => r is Ok && state_of(*final(body), *final(supply)) == state,
            Err(error) => r is Err && r->Err_0 == error,
        },
{
    let mut i: usize = 0;
    while i < order.len()
        invariant
            i <= order@.len(),
            forall|k: int| 0 <= k < order@.len() ==> graph@.contains_key(#[trigger] order@[k]),
            lower_all_model(state_of(*old(body), *old(supply)), graph@, order@, 0)
                == lower_all_model(state_of(*body, *supply), graph@, order@, i as nat),
        decreases order@.len() - i,
    {
        let label = order[i];
        match graph.get(label) {
            Some(instr) => {
                ertl_instr(body, supply, label, instr)?;
            },
            None => {
                proof {
                    assert(graph@.contains_key(order@[i as int]));
                    assert(false);
                }
            },
        }
        i = i + 1;
    }
    Ok(())
}

/// Draws one pseudo-register for each callee-saved register.
pub fn saves(body: &Graph, supply: &mut Supply) -> (r: ErtlResult<Vec<PseudoRegister>>)
    ensures
        match saves_model(state_of(*body, *old(supply)), Seq::empty(), 0) {
            Ok((state, saved)) => r is Ok && r->Ok_0@ == saved && state_of(*body, *final(supply))
                == state && saved.len() == CALLEE_SAVED_COUNT,
            Err(error) => r is Err && r->Err_0 == error,
        },
{
    let mut saved: Vec<PseudoRegister> = Vec::new();
    let mut j: usize = 0;
    while j < CALLEE_SAVED_COUNT
        invariant
            j <= CALLEE_SAVED_COUNT,
            callee_saved().len() == CALLEE_SAVED_COUNT,
            saved@.len() == j,
            saves_model(state_of(*body, *old(supply)), Seq::empty(), 0) == saves_model(
                state_of(*body, *supply),
                saved@,
                j as nat,
            ),
        decreases CALLEE_SAVED_COUNT - j,
    {
        match PseudoRegister::fresh(supply) {
            Some(register) => {
                saved.push(register);
            },
            None => {
                return Err(ErtlError::Exhausted);
            },
        }
        j = j + 1;
    }
    Ok(saved)
}

/// Puts in front of `entry` the chain that takes the arguments, and returns
/// its first label.
pub fn fetch_all(body: &mut Graph, supply: &mut Supply, args: &Vec<PseudoRegister>, entry: Label) -> (r:
    ErtlResult<Label>)
    requires
        args@.len() <= 255,
    ensures
        match fetch_all_model(state_of(*old(body), *old(supply)), args@, args@.len(), entry) {
            Ok((state, label)) => r == Ok::<Label, ErtlError>(label) && state_of(
                *final(body),
                *final(supply),
            ) == state,
            Err(error) => r == Err::<Label, ErtlError>(error),
        },
{
    let numbered = enumerate_items(args);
    let mut label = entry;
    let mut n: usize = numbered.len();
    while n > 0
        invariant
            n <= args@.len() <= 255,
            numbered@.len() == args@.len(),
            forall|k: int|
                0 <= k < numbered@.len() ==> (#[trigger] numbered@[k]).0 == k && *numbered@[k].1
                    == args@[k],
            fetch_all_model(state_of(*old(body), *old(supply)), args@, args@.len(), entry)
                == fetch_all_model(state_of(*body, *supply), args@, n as nat, label),
        decreases n,
    {
        n = n - 1;
        let (index, arg) = numbered[n];
        label = place(body, supply, fetch(index as u8, *arg, label))?;
    }
    Ok(label)
}

/// Puts a chain of moves between the callee-saved registers and the
/// pseudo-registers `saved` in front of `next`, and returns its first label.
pub fn keep_all(
    body: &mut Graph,
    supply: &mut Supply,
    saved: &Vec<PseudoRegister>,
    restoring: bool,
    next: Label,
) -> (r: ErtlResult<Label>)
    requires
        saved@.len() == CALLEE_SAVED_COUNT,
    ensures
        match keep_all_model(state_of(*old(body), *old(supply)), saved@, 0, restoring, next) {
            Ok((state, label)) => r == Ok::<Label, ErtlError>(label) && state_of(
                *final(body),
                *final(supply),
            ) == state,
            Err(error) => r == Err::<Label, ErtlError>(error),
        },
{
    let mut label = next;
    let mut i: usize = 0;
    while i < CALLEE_SAVED_COUNT
        invariant
            i <= CALLEE_SAVED_COUNT,
            callee_saved().len() == CALLEE_SAVED_COUNT,
            saved@.len() == CALLEE_SAVED_COUNT,
            keep_all_model(state_of(*old(body), *old(supply)), saved@, 0, restoring, next)
                == keep_all_model(state_of(*body, *supply), saved@, i as nat, restoring, label),
        decreases CALLEE_SAVED_COUNT - i,
    {
        let instr = if restoring {
            move_instr(Register::Pseudo(saved[i]), Register::Physical(callee_save(i)), label)
        } else {
            move_instr(Register::Physical(callee_save(i)), Register::Pseudo(saved[i]), label)
        };
        label = place(body, supply, instr)?;
        i = i + 1;
    }
    Ok(label)
}

/// Puts at `label` what becomes of the RTL instruction `instr`: the same
/// instruction on ERTL registers, but for a division, which goes through
/// `Rax`, and for a call, which becomes the calling sequence.
pub fn ertl_instr(graph: &mut Graph, supply: &mut Supply, label: Label, instr: &rtl::Instr) -> (r:
    ErtlResult<()>)
    ensures
        match ertl_instr_model(state_of(*old(graph), *old(supply)), label, instr@) {
            Ok(state) => r is Ok && state_of(*final(graph), *final(supply)) == state,
            Err(error) => r is Err && r->Err_0 == error,
        },
{
    match instr {
        rtl::Instr::EConst(x, r, l) => {
            graph.insert_at_label(label, Instr::EConst(*x, Register::Pseudo(*r), *l));
        },
        rtl::Instr::ELoad(a, o, d, l) => {
            graph.insert_at_label(
                label,
                Instr::ELoad(Register::Pseudo(*a), *o, Register::Pseudo(*d), *l),
            );
        },
        rtl::Instr::EStore(v, a, o, l) => {
            graph.insert_at_label(
                label,
                Instr::EStore(Register::Pseudo(*v), Register::Pseudo(*a), *o, *l),
            );
        },
        rtl::Instr::EMUnop(op, r, l) => {
            graph.insert_at_label(label, Instr::EMUnop(*op, Register::Pseudo(*r), *l));
        },
        rtl::Instr::EMBinop(Mbinop::MDiv, rs, rd, l) => {
            let back = place(
                graph,
                supply,
                move_instr(Register::Physical(RESULT), Register::Pseudo(*rd), *l),
            )?;
            let div = place(
                graph,
                supply,
                Instr::EMBinop(
                    Mbinop::MDiv,
                    Register::Pseudo(*rs),
                    Register::Physical(RESULT),
                    back,
                ),
            )?;
            graph.insert_at_label(
                label,
                move_instr(Register::Pseudo(*rd), Register::Physical(RESULT), div),
            );
        },
        rtl::Instr::EMBinop(op, rs, rd, l) => {
            graph.insert_at_label(
                label,
                Instr::EMBinop(*op, Register::Pseudo(*rs), Register::Pseudo(*rd), *l),
            );
        },
        rtl::Instr::EMuBranch(op, r, l1, l2) => {
            graph.insert_at_label(label, Instr::EMuBranch(*op, Register::Pseudo(*r), *l1, *l2));
        },
        rtl::Instr::EMbBranch(op, r1, r2, l1, l2) => {
            graph.insert_at_label(
                label,
                Instr::EMbBranch(*op, Register::Pseudo(*r1), Register::Pseudo(*r2), *l1, *l2),
            );
        },
        rtl::Instr::ECall(rd, name, args, l) => {
            let count = args.len();
            if count > 255 {
                return Err(ErtlError::TooManyArguments(*name));
            }
            let on_stack: usize = if count <= PARAMETER_COUNT {
                0
            } else {
                count - PARAMETER_COUNT
            };
            let in_registers: usize = count - on_stack;
            let clean = place(
                graph,
                supply,
                Instr::EMUnop(
                    Munop::Maddi(8 * (on_stack as i64)),
                    Register::Physical(PhysicalRegister::Rsp),
                    *l,
                ),
            )?;
            let result = place(
                graph,
                supply,
                move_instr(Register::Physical(RESULT), Register::Pseudo(*rd), clean),
            )?;
            if count == 0 {
                graph.insert_at_label(label, Instr::ECall(*name, 0, result));
            } else {
                let call = place(graph, supply, Instr::ECall(*name, in_registers as u8, result))?;
                let ghost called = state_of(*graph, *supply);
                let numbered = enumerate_items(args);
                let mut next = call;
                let mut i: usize = 0;
                while i + 1 < count
                    invariant
                        i + 1 <= count,
                        count == args@.len(),
                        numbered@.len() == count,
                        forall|k: int|
                            0 <= k < numbered@.len() ==> (#[trigger] numbered@[k]).0 == k
                                && *numbered@[k].1 == args@[k],
                        pass_all_model(called, label, args@, 0, call) == pass_all_model(
                            state_of(*graph, *supply),
                            label,
                            args@,
                            i as nat,
                            next,
                        ),
                        ertl_instr_model(state_of(*old(graph), *old(supply)), label, instr@)
                            == pass_all_model(called, label, args@, 0, call),
                    decreases count - i,
                {
                    let (index, arg) = numbered[i];
                    next = place(graph, supply, pass(index, *arg, next))?;
                    i = i + 1;
                }
                let (index, arg) = numbered[i];
                graph.insert_at_label(label, pass(index, *arg, next));
            }
        },
        rtl::Instr::EGoto(l) => {
            graph.insert_at_label(label, Instr::EGoto(*l));
        },
    }
    Ok(())
}

} // verus!

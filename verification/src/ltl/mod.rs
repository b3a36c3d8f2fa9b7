pub mod context;
pub mod division;
pub mod error;
pub mod laws;
pub mod model;
pub mod structure;

use crate::coloring::model::colored_by_rules;
use crate::coloring::structure::Coloring;
use crate::coloring::{color_graph, proper};
use crate::ertl::structure as ertl;
use crate::ertl::structure::register::{PhysicalRegister, TMP_1, TMP_2};
use crate::ertl::structure::{Label, Mbinop, Munop};
use crate::interference::{built, interference_graph};
use crate::liveness::error::LivenessError;
use crate::liveness::liveness_graph;
use crate::liveness::model::{analysed, closed};
use crate::ltl::context::Context;
use crate::ltl::error::LtlError;
use crate::ltl::model::{hold, load_model, lower_all_model, ltl_instr_model, mov, store_model};
use crate::ltl::structure::{File, Fun, FunView, Graph, Instr, Operand};
use crate::rtl::structure::{Fresh, Supply};
use crate::utils::{ordered, LabelMap, State};
use vstd::prelude::*;

verus! {

pub type LtlResult<T> = Result<T, LtlError>;

/// `mov src, dest`, then on to `next`.
pub fn move_instr(src: Operand, dest: Operand, next: Label) -> (r: Instr)
    ensures
        r == mov(src, dest, next),
{
    Instr::EMBinop(Mbinop::MMov, src, dest, next)
}

/// A label that has no instruction yet, or `Exhausted`.
pub fn fresh_label(context: &Context, supply: &mut Supply) -> (r: LtlResult<Label>)
    ensures
        match hold(context.state(*old(supply))) {
            Ok((state, label)) => r == Ok::<Label, LtlError>(label) && context.state(
                *final(supply),
            ) == state,
            Err(error) => r == Err::<Label, LtlError>(error),
        },
{
    match Label::fresh(supply) {
        Some(label) => Ok(label),
        None => Err(LtlError::Exhausted),
    }
}

/// Lowers a load.
fn lower_load(
    context: &mut Context,
    supply: &mut Supply,
    label: Label,
    addr: Operand,
    off: i64,
    dest: Operand,
    l: Label,
) -> (r: LtlResult<()>)
    ensures
        final(context).coloring == old(context).coloring,
        match load_model(old(context).state(*old(supply)), label, addr, off, dest, l) {
            Ok(state) => r is Ok && final(context).state(*final(supply)) == state,
            Err(error) => r is Err && r->Err_0 == error,
        },
{
    let (post_label, dest_register) = match dest {
        Operand::Register(r) => (l, r),
        Operand::Spilled(_) => {
            let post = context.insert(supply, move_instr(Operand::Register(TMP_2), dest, l))?;
            (post, TMP_2)
        },
    };
    match addr {
        Operand::Register(r) => {
            context.insert_at_label(label, Instr::ELoad(r, off, dest_register, post_label));
        },
        Operand::Spilled(_) => {
            let pre = fresh_label(context, supply)?;
            context.insert_at_label(label, move_instr(addr, Operand::Register(TMP_1), pre));
            context.insert_at_label(pre, Instr::ELoad(TMP_1, off, dest_register, post_label));
        },
    }
    Ok(())
}

/// Lowers a store.
fn lower_store(
    context: &mut Context,
    supply: &mut Supply,
    label: Label,
    value: Operand,
    addr: Operand,
    off: i64,
    l: Label,
) -> (r: LtlResult<()>)
    ensures
        final(context).coloring == old(context).coloring,
        match store_model(old(context).state(*old(supply)), label, value, addr, off, l) {
            Ok(state) => r is Ok && final(context).state(*final(supply)) == state,
            Err(error) => r is Err && r->Err_0 == error,
        },
{
    let (addr_label, addr_register) = match addr {
        Operand::Register(r) => (label, r),
        Operand::Spilled(_) => {
            let next = fresh_label(context, supply)?;
            context.insert_at_label(label, move_instr(addr, Operand::Register(TMP_1), next));
            (next, TMP_1)
        },
    };
    match value {
        Operand::Register(r) => {
            context.insert_at_label(addr_label, Instr::EStore(r, addr_register, off, l));
        },
        Operand::Spilled(_) => {
            let next = fresh_label(context, supply)?;
            context.insert_at_label(addr_label, move_instr(value, Operand::Register(TMP_2), next));
            context.insert_at_label(next, Instr::EStore(TMP_2, addr_register, off, l));
        },
    }
    Ok(())
}

/// Puts at `label` what becomes of the ERTL instruction `instr` under the
/// coloring of `context`: the same instruction on colors, but that a move
/// between equal colors becomes a jump, that a load, a store and the fetch
/// of a stack argument go through the scratch registers where a color is a
/// frame slot, and that the making and the deleting of the frame are spelt
/// out, or become jumps where the frame has no slots.
pub fn ltl_instr(context: &mut Context, supply: &mut Supply, label: Label, instr: &ertl::Instr) -> (r:
    LtlResult<()>)
    ensures
        final(context).coloring == old(context).coloring,
        match ltl_instr_model(
            old(context).coloring.colors@,
            old(context).coloring.count_on_stack,
            old(context).state(*old(supply)),
            label,
            *instr,
        ) {
            Ok(state) => r is Ok && final(context).state(*final(supply)) == state,
            Err(error) => r is Err && r->Err_0 == error,
        },
{
    match instr {
        ertl::Instr::EConst(c, r, l) => {
            let color = context.color(r)?;
            context.insert_at_label(label, Instr::EConst(*c, color, *l));
        },
        ertl::Instr::ELoad(addr, off, dest, l) => {
            let addr = context.color(addr)?;
            let dest = context.color(dest)?;
            lower_load(context, supply, label, addr, *off, dest, *l)?;
        },
        ertl::Instr::EStore(value, addr, off, l) => {
            let value = context.color(value)?;
            let addr = context.color(addr)?;
            lower_store(context, supply, label, value, addr, *off, *l)?;
        },
        ertl::Instr::EMUnop(op, r, l) => {
            let color = context.color(r)?;
            context.insert_at_label(label, Instr::EMunop(*op, color, *l));
        },
        ertl::Instr::EMBinop(op, r1, r2, l) => {
            let color_1 = context.color(r1)?;
            let color_2 = context.color(r2)?;
            if *op == Mbinop::MMov && color_1 == color_2 {
                context.insert_at_label(label, Instr::EGoto(*l));
            } else {
                context.insert_at_label(label, Instr::EMBinop(*op, color_1, color_2, *l));
            }
        },
        ertl::Instr::EMuBranch(op, r, l1, l2) => {
            let color = context.color(r)?;
            context.insert_at_label(label, Instr::EMuBranch(*op, color, *l1, *l2));
        },
        ertl::Instr::EMbBranch(op, r1, r2, l1, l2) => {
            let color_1 = context.color(r1)?;
            let color_2 = context.color(r2)?;
            context.insert_at_label(label, Instr::EMbBranch(*op, color_1, color_2, *l1, *l2));
        },
        ertl::Instr::ECall(name, _, l) => {
            context.insert_at_label(label, Instr::ECall(*name, *l));
        },
        ertl::Instr::EGoto(l) => {
            context.insert_at_label(label, Instr::EGoto(*l));
        },
        ertl::Instr::EAllocFrame(l) => {
            let count: u64 = context.coloring.count_on_stack as u64;
            if count == 0 {
                context.insert_at_label(label, Instr::EGoto(*l));
            } else if count > 0x0fff_ffff_ffff_fff0 {
                return Err(LtlError::FrameTooLarge);
            } else {
                let add = context.insert(
                    supply,
                    Instr::EMunop(
                        Munop::Maddi(-8 * (count as i64)),
                        Operand::Register(PhysicalRegister::Rsp),
                        *l,
                    ),
                )?;
                let set = context.insert(
                    supply,
                    move_instr(
                        Operand::Register(PhysicalRegister::Rsp),
                        Operand::Register(PhysicalRegister::Rbp),
                        add,
                    ),
                )?;
                context.insert_at_label(
                    label,
                    Instr::EPush(Operand::Register(PhysicalRegister::Rbp), set),
                );
            }
        },
        ertl::Instr::EDeleteFrame(l) => {
            if context.coloring.count_on_stack == 0 {
                context.insert_at_label(label, Instr::EGoto(*l));
            } else {
                let pop = context.insert(
                    supply,
                    Instr::EPop(Operand::Register(PhysicalRegister::Rbp), *l),
                )?;
                context.insert_at_label(
                    label,
                    move_instr(
                        Operand::Register(PhysicalRegister::Rbp),
                        Operand::Register(PhysicalRegister::Rsp),
                        pop,
                    ),
                );
            }
        },
        ertl::Instr::EGetParam(index, dest, l) => {
            let color = context.color(dest)?;
            let offset: i64 = 16 + 8 * (*index as i64 - 6);
            match color {
                Operand::Register(r) => {
                    context.insert_at_label(label, Instr::ELoad(PhysicalRegister::Rbp, offset, r, *l));
                },
                Operand::Spilled(slot) => {
                    let wide: u64 = slot as u64;
                    if wide > 0x0fff_ffff_ffff_fff0 {
                        return Err(LtlError::FrameTooLarge);
                    }
                    let store = context.insert(
                        supply,
                        Instr::EStore(TMP_1, PhysicalRegister::Rbp, -8 * (wide as i64 + 1), *l),
                    )?;
                    context.insert_at_label(
                        label,
                        Instr::ELoad(PhysicalRegister::Rbp, offset, TMP_1, store),
                    );
                },
            }
        },
        ertl::Instr::EPushParam(r, l) => {
            let color = context.color(r)?;
            context.insert_at_label(label, Instr::EPush(color, *l));
        },
        ertl::Instr::EReturn => {
            context.insert_at_label(label, Instr::EReturn);
        },
    }
    Ok(())
}

/// `coloring` is a proper coloring of the interference graph of the
/// liveness of `body`, as the coloring rules give it.
pub open spec fn colors_body(body: Map<Label, ertl::Instr>, coloring: Coloring) -> bool {
    exists|infos: Map<Label, crate::liveness::structure::InfoView>, graph: crate::interference::structure::InterferenceGraph|
        #![trigger built(infos, graph)]
        analysed(body, infos) && built(infos, graph) && proper(graph, coloring)
            && colored_by_rules(graph, coloring.colors@, coloring.count_on_stack as nat)
}

/// What lowering `fun` under `coloring` in the order `order` gives, with the
/// counters after it.
pub open spec fn ltl_fun_model(
    fun: ertl::FunView,
    coloring: Coloring,
    supply: Supply,
    order: Seq<Label>,
) -> Result<(FunView, Supply), LtlError> {
    match lower_all_model(
        coloring.colors@,
        coloring.count_on_stack,
        State { instrs: Map::empty(), supply },
        fun.body,
        order,
        0,
    ) {
        Ok(state) => Ok(
            (FunView { name: fun.name, entry: fun.entry, body: state.instrs }, state.supply),
        ),
        Err(error) => Err(error),
    }
}

/// What `ltl_fun` gives for `fun`. Where control may leave the graph, it
/// fails with the error of the liveness analysis. Otherwise the function is
/// lowered under a proper coloring of its interference graph, by ascending
/// label.
pub open spec fn ltl_fun_post(
    fun: ertl::FunView,
    supply: Supply,
    result: Result<FunView, LtlError>,
    next: Supply,
) -> bool {
    if closed(fun.body) {
        exists|coloring: Coloring|
            #![trigger colors_body(fun.body, coloring)]
            colors_body(fun.body, coloring) && match ltl_fun_model(
                fun,
                coloring,
                supply,
                ordered(fun.body.dom()),
            ) {
                Ok((lowered, after)) => result == Ok::<FunView, LtlError>(lowered) && next
                    == after,
                Err(error) => result == Err::<FunView, LtlError>(error),
            }
    } else {
        result is Err && result->Err_0 is LivenessError
    }
}

/// Lowers the instructions of `fun` under `coloring`, in the order `order`.
pub fn ltl_fun_with(fun: &ertl::Fun, coloring: Coloring, supply: &mut Supply, order: &Vec<Label>) -> (r:
    LtlResult<Fun>)
    requires
        forall|i: int| 0 <= i < order@.len() ==> fun@.body.contains_key(#[trigger] order@[i]),
    ensures
        match ltl_fun_model(fun@, coloring, *old(supply), order@) {
            Ok((lowered, next)) => r is Ok && r->Ok_0@ == lowered && *final(supply) == next,
            Err(error) => r is Err && r->Err_0 == error,
        },
{
    let mut context = Context::new(coloring, LabelMap::new());
    let mut i: usize = 0;
    while i < order.len()
        invariant
            i <= order@.len(),
            forall|k: int| 0 <= k < order@.len() ==> fun@.body.contains_key(#[trigger] order@[k]),
            context.coloring == coloring,
            lower_all_model(
                coloring.colors@,
                coloring.count_on_stack,
                State { instrs: Map::empty(), supply: *old(supply) },
                fun@.body,
                order@,
                0,
            ) == lower_all_model(
                coloring.colors@,
                coloring.count_on_stack,
                context.state(*supply),
                fun@.body,
                order@,
                i as nat,
            ),
        decreases order@.len() - i,
    {
        let label = order[i];
        match fun.body.instrs.get(label) {
            Some(instr) => {
                ltl_instr(&mut context, supply, label, instr)?;
            },
            None => {
                proof {
                    assert(fun@.body.contains_key(order@[i as int]));
                    assert(false);
                }
            },
        }
        i = i + 1;
    }
    Ok(Fun::new(fun.name, fun.entry, Graph::new(context.graph)))
}

/// Lowers `fun`: analyses its liveness, builds its interference graph,
/// colors it, and rewrites its instructions under the coloring.
pub fn ltl_fun(fun: &ertl::Fun, supply: &mut Supply) -> (r: LtlResult<Fun>)
    ensures
        ltl_fun_post(
            fun@,
            *old(supply),
            match r {
                Ok(lowered) => Ok(lowered@),
                Err(error) => Err(error),
            },
            *final(supply),
        ),
{
    let liveness = match liveness_graph(&fun.body) {
        Ok(liveness) => liveness,
        Err(error) => {
            return Err(LtlError::LivenessError(error));
        },
    };
    let interference = match interference_graph(&liveness) {
        Ok(interference) => interference,
        Err(error) => {
            return Err(LtlError::InterferenceError(error));
        },
    };
    let coloring = match color_graph(&interference) {
        Ok(coloring) => coloring,
        Err(error) => {
            return Err(LtlError::ColoringError(error));
        },
    };
    let ghost chosen = coloring;
    let order = fun.body.instrs.labels();
    proof {
        assert(built(liveness@, interference));
        assert(colors_body(fun@.body, chosen));
        assert forall|k: int| 0 <= k < order@.len() implies fun@.body.contains_key(
            #[trigger] order@[k],
        ) by {
            assert(order@.contains(order@[k]));
        }
    }
    let lowered = ltl_fun_with(fun, coloring, supply, &order);
    proof {
        let _ = ltl_fun_model(fun@, chosen, *old(supply), order@);
    }
    lowered
}

/// What `ltl_file` gives for `funs`: each function lowered in turn, the
/// counters handed from one to the next; or the error of the first that
/// fails.
pub open spec fn ltl_file_post(
    funs: Seq<ertl::FunView>,
    supply: Supply,
    result: Result<Seq<FunView>, LtlError>,
    next: Supply,
) -> bool {
    exists|supplies: Seq<Supply>|
        #![trigger supplies.len()]
        supplies.len() > 0 && supplies[0] == supply && match result {
            Ok(lowered) => {
                &&& lowered.len() == funs.len()
                &&& supplies.len() == funs.len() + 1
                &&& supplies.last() == next
                &&& forall|i: int|
                    0 <= i < funs.len() ==> ltl_fun_post(
                        funs[i],
                        supplies[i],
                        Ok(#[trigger] lowered[i]),
                        supplies[i + 1],
                    )
            },
            Err(error) => {
                &&& supplies.len() <= funs.len()
                &&& forall|i: int|
                    0 <= i < supplies.len() - 1 ==> exists|lowered: FunView|
                        ltl_fun_post(funs[i], #[trigger] supplies[i], Ok(lowered), supplies[i + 1])
                &&& ltl_fun_post(funs[supplies.len() - 1], supplies.last(), Err(error), next)
            },
        }
}

/// Lowers every function of `file`, in the order of the file.
pub fn ltl_file(file: &ertl::File, supply: &mut Supply) -> (r: LtlResult<File>)
    ensures
        ltl_file_post(
            file@,
            *old(supply),
            match r {
                Ok(lowered) => Ok(lowered@),
                Err(error) => Err(error),
            },
            *final(supply),
        ),
{
    let mut funs: Vec<Fun> = Vec::new();
    let ghost mut supplies: Seq<Supply> = seq![*supply];
    let mut i: usize = 0;
    while i < file.funs.len()
        invariant
            i <= file.funs@.len(),
            file@.len() == file.funs@.len(),
            funs@.len() == i,
            supplies.len() == i + 1,
            supplies[0] == *old(supply),
            supplies.last() == *supply,
            forall|k: int|
                0 <= k < i ==> ltl_fun_post(
                    file@[k],
                    #[trigger] supplies[k],
                    Ok(funs@[k]@),
                    supplies[k + 1],
                ),
        decreases file.funs@.len() - i,
    {
        let ghost before = supplies;
        match ltl_fun(&file.funs[i], supply) {
            Ok(fun) => {
                proof {
                    supplies = supplies.push(*supply);
                    assert forall|k: int| 0 <= k < i + 1 implies ltl_fun_post(
                        file@[k],
                        #[trigger] supplies[k],
                        Ok(funs@.push(fun)[k]@),
                        supplies[k + 1],
                    ) by {
                        if k < i {
                            assert(supplies[k] == before[k]);
                            assert(supplies[k + 1] == before[k + 1]);
                        }
                    }
                }
                funs.push(fun);
            },
            Err(error) => {
                proof {
                    assert forall|k: int| 0 <= k < supplies.len() - 1 implies exists|
                        lowered: FunView,
                    |
                        ltl_fun_post(
                            file@[k],
                            #[trigger] supplies[k],
                            Ok(lowered),
                            supplies[k + 1],
                        ) by {
                        assert(ltl_fun_post(
                            file@[k],
                            supplies[k],
                            Ok(funs@[k]@),
                            supplies[k + 1],
                        ));
                    }
                    assert(ltl_fun_post(
                        file@[supplies.len() - 1],
                        supplies.last(),
                        Err(error),
                        *supply,
                    ));
                    assert(supplies.len() > 0);
                    assert(ltl_file_post(file@, *old(supply), Err(error), *supply));
                }
                return Err(error);
            },
        }
        i = i + 1;
    }
    let lowered = File::new(funs);
    proof {
        assert(supplies.len() > 0);
        assert(lowered@.len() == file@.len());
        assert forall|k: int| 0 <= k < file@.len() implies ltl_fun_post(
            file@[k],
            supplies[k],
            Ok(#[trigger] lowered@[k]),
            supplies[k + 1],
        ) by {
            assert(ltl_fun_post(file@[k], supplies[k], Ok(funs@[k]@), supplies[k + 1]));
        }
        assert(ltl_file_post(file@, *old(supply), Ok(lowered@), *supply));
    }
    Ok(lowered)
}

} // verus!

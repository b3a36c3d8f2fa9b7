use crate::common::{Ident, Value, MALLOC, PUTCHAR};
use crate::rtl::interpreter::context::ContextView;
use crate::rtl::interpreter::error::RtlInterpreterError;
use crate::rtl::structure::label::Label;
use crate::rtl::structure::register::PseudoRegister;
use crate::rtl::structure::{FunView, InstrView, MbBranch, Mbinop, MuBranch, Munop};
use vstd::prelude::*;

verus! {

/// 1 for true, 0 for false.
pub open spec fn flag(b: bool) -> Value {
    if b {
        1
    } else {
        0
    }
}

/// The character that `putchar` writes for `value`: that of its low byte.
pub open spec fn char_of(value: Value) -> char {
    (value as u8) as char
}

/// The result of the unary operation `op` on `value`.
pub open spec fn unop_model(op: Munop, value: Value) -> Value {
    match op {
        Munop::Maddi(c) => value.wrapping_add(c),
        Munop::Msetei(c) => flag(value == c),
        Munop::Msetnei(c) => flag(value != c),
        Munop::Mneg => 0i64.wrapping_sub(value),
    }
}

/// The result of `dest op src`; `None` for a division by zero or one that
/// does not fit.
pub open spec fn binop_model(op: Mbinop, src: Value, dest: Value) -> Option<Value> {
    match op {
        Mbinop::MMov => Some(src),
        Mbinop::MAdd => Some(dest.wrapping_add(src)),
        Mbinop::MSub => Some(dest.wrapping_sub(src)),
        Mbinop::MMul => Some(dest.wrapping_mul(src)),
        Mbinop::MDiv => dest.checked_div(src),
        Mbinop::MSete => Some(flag(dest == src)),
        Mbinop::MSetne => Some(flag(dest != src)),
        Mbinop::Msetl => Some(flag(dest < src)),
        Mbinop::Msetle => Some(flag(dest <= src)),
        Mbinop::Msetg => Some(flag(dest > src)),
        Mbinop::Msetge => Some(flag(dest >= src)),
    }
}

/// Whether the unary branch `op` is taken on `value`.
pub open spec fn ubranch_model(op: MuBranch, value: Value) -> bool {
    match op {
        MuBranch::MJz => value == 0,
        MuBranch::MJnz => value != 0,
        MuBranch::MJlei(c) => value <= c,
        MuBranch::MJgi(c) => value > c,
    }
}

/// Whether the binary branch `op` is taken on `first` and `second`.
pub open spec fn bbranch_model(op: MbBranch, first: Value, second: Value) -> bool {
    match op {
        MbBranch::MJl => first < second,
        MbBranch::MJle => first <= second,
    }
}

/// What one instruction that is no call does: the state after it, and the
/// label at which the run goes on.
pub open spec fn instr_model(ctx: ContextView, instr: InstrView) -> Result<
    (ContextView, Label),
    RtlInterpreterError,
> {
    match instr {
        InstrView::EConst(c, r, l) => Ok((ctx.put(r, c), l)),
        InstrView::ELoad(addr, off, dest, l) => if ctx.allocated(ctx.get(addr)) {
            Ok((ctx.put(dest, ctx.load(ctx.get(addr), off)), l))
        } else {
            Err(RtlInterpreterError::UnallocatedMemory(ctx.get(addr)))
        },
        InstrView::EStore(value, addr, off, l) => if ctx.allocated(ctx.get(addr)) {
            Ok((ctx.store(ctx.get(addr), off, ctx.get(value)), l))
        } else {
            Err(RtlInterpreterError::UnallocatedMemory(ctx.get(addr)))
        },
        InstrView::EMUnop(op, r, l) => Ok((ctx.put(r, unop_model(op, ctx.get(r))), l)),
        InstrView::EMBinop(op, src, dest, l) => match binop_model(
            op,
            ctx.get(src),
            ctx.get(dest),
        ) {
            Some(value) => Ok((ctx.put(dest, value), l)),
            None => Err(RtlInterpreterError::DivisionError),
        },
        InstrView::EMuBranch(op, r, l1, l2) => Ok(
            (
                ctx,
                if ubranch_model(op, ctx.get(r)) {
                    l1
                } else {
                    l2
                },
            ),
        ),
        InstrView::EMbBranch(op, r1, r2, l1, l2) => Ok(
            (
                ctx,
                if bbranch_model(op, ctx.get(r1), ctx.get(r2)) {
                    l1
                } else {
                    l2
                },
            ),
        ),
        InstrView::ECall(_, _, _, _) => Err(RtlInterpreterError::Other),
        InstrView::EGoto(l) => Ok((ctx, l)),
    }
}

/// The place of the first function of `funs` from `from` on that is named
/// `name`.
pub open spec fn fun_index(funs: Seq<FunView>, name: Ident, from: int) -> Option<int>
    decreases funs.len() - from,
{
    if from < 0 || from >= funs.len() {
        None
    } else if funs[from].name == name {
        Some(from)
    } else {
        fun_index(funs, name, from + 1)
    }
}

/// The values of the registers `args` in the innermost frame.
pub open spec fn values_model(ctx: ContextView, args: Seq<PseudoRegister>) -> Seq<Value> {
    Seq::new(args.len(), |i: int| ctx.get(args[i]))
}

/// The state with the first `n` of `values` put into the first `n` of
/// `params`, as far as both go.
pub open spec fn bind_model(
    ctx: ContextView,
    params: Seq<PseudoRegister>,
    values: Seq<Value>,
    n: nat,
) -> ContextView
    decreases n,
{
    if n == 0 || n > params.len() || n > values.len() {
        ctx
    } else {
        bind_model(ctx, params, values, (n - 1) as nat).put(params[n - 1], values[n - 1])
    }
}

/// The smaller of two lengths.
pub open spec fn shorter(a: nat, b: nat) -> nat {
    if a <= b {
        a
    } else {
        b
    }
}

/// The state with a frame opened.
pub open spec fn entered(ctx: ContextView) -> ContextView {
    ContextView { frames: ctx.frames.push(Map::empty()), ..ctx }
}

/// The state with the innermost frame dropped.
pub open spec fn left(ctx: ContextView) -> ContextView {
    ContextView {
        frames: if ctx.frames.len() > 0 {
            ctx.frames.drop_last()
        } else {
            ctx.frames
        },
        ..ctx
    }
}

/// A call of `name` on `values` with `fuel` steps left: the state after
/// it, what the function hands back, and the steps left. `putchar` writes
/// the character of its argument and hands back 0; `malloc` allocates an
/// empty block and hands back its address; another function runs in a
/// frame of its own, with the values in its argument registers, and hands
/// back what its result register holds.
pub open spec fn call_model(
    funs: Seq<FunView>,
    ctx: ContextView,
    name: Ident,
    values: Seq<Value>,
    fuel: nat,
) -> Result<(ContextView, Value, nat), RtlInterpreterError>
    decreases fuel, 2nat,
{
    if name.id == PUTCHAR {
        let value = if values.len() > 0 {
            values[0]
        } else {
            0
        };
        Ok((ContextView { stdout: ctx.stdout.push(char_of(value)), ..ctx }, 0, fuel))
    } else if name.id == MALLOC {
        if ctx.memory.len() < 0x7fff_ffff_ffff_fff0 {
            Ok(
                (
                    ContextView { memory: ctx.memory.push(Seq::empty()), ..ctx },
                    (ctx.memory.len() + 1) as i64,
                    fuel,
                ),
            )
        } else {
            Err(RtlInterpreterError::Other)
        }
    } else {
        match fun_index(funs, name, 0) {
            Some(index) => {
                let fun = funs[index];
                let inside = bind_model(
                    entered(ctx),
                    fun.arguments,
                    values,
                    shorter(fun.arguments.len(), values.len()),
                );
                match run_model(funs, inside, index, fuel) {
                    Ok((after, left_fuel)) => Ok((left(after), after.get(fun.result), left_fuel)),
                    Err(error) => Err(error),
                }
            },
            None => Err(RtlInterpreterError::FunctionDoesNotExist(name)),
        }
    }
}

/// A run of the function at `index` from its entry, with `fuel` steps left.
pub open spec fn run_model(funs: Seq<FunView>, ctx: ContextView, index: int, fuel: nat) -> Result<
    (ContextView, nat),
    RtlInterpreterError,
>
    decreases fuel, 1nat,
{
    if 0 <= index < funs.len() {
        walk_model(funs, ctx, index, funs[index].entry, fuel)
    } else {
        Err(RtlInterpreterError::Other)
    }
}

/// A run of the function at `index` from `label` on, with `fuel` steps
/// left: it ends at the exit label; each instruction takes one step.
pub open spec fn walk_model(
    funs: Seq<FunView>,
    ctx: ContextView,
    index: int,
    label: Label,
    fuel: nat,
) -> Result<(ContextView, nat), RtlInterpreterError>
    decreases fuel, 0nat,
{
    if !(0 <= index < funs.len()) {
        Err(RtlInterpreterError::Other)
    } else if label == funs[index].exit {
        Ok((ctx, fuel))
    } else if fuel == 0 {
        Err(RtlInterpreterError::OutOfFuel)
    } else if !funs[index].graph.contains_key(label) {
        Err(RtlInterpreterError::NoSuchInstruction(label))
    } else {
        match funs[index].graph[label] {
            InstrView::ECall(rd, name, args, l) => match call_model(
                funs,
                ctx,
                name,
                values_model(ctx, args),
                (fuel - 1) as nat,
            ) {
                Ok((after, value, left_fuel)) => if left_fuel < fuel {
                    walk_model(funs, after.put(rd, value), index, l, left_fuel)
                } else {
                    Err(RtlInterpreterError::Other)
                },
                Err(error) => Err(error),
            },
            other => match instr_model(ctx, other) {
                Ok((after, next)) => walk_model(funs, after, index, next, (fuel - 1) as nat),
                Err(error) => Err(error),
            },
        }
    }
}

/// A run of the program from `main` with `fuel` steps: what it writes.
pub open spec fn file_model(funs: Seq<FunView>, fuel: nat) -> Result<
    Seq<char>,
    RtlInterpreterError,
> {
    match fun_index(funs, Ident { id: crate::common::MAIN }, 0) {
        Some(index) => match run_model(
            funs,
            ContextView {
                stdout: Seq::empty(),
                frames: seq![Map::<u32, Value>::empty()],
                memory: Seq::empty(),
            },
            index,
            fuel,
        ) {
            Ok((after, _)) => Ok(after.stdout),
            Err(error) => Err(error),
        },
        None => Err(RtlInterpreterError::FunctionDoesNotExist(Ident { id: crate::common::MAIN })),
    }
}

} // verus!

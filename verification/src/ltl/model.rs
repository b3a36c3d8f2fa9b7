use crate::common::StackOffset;
use crate::ertl::structure as ertl;
use crate::ertl::structure::register::{PhysicalRegister, Register};
use crate::ertl::structure::{Label, Mbinop, Munop};
use crate::ltl::error::LtlError;
use crate::ltl::structure::{Instr, Operand};
use crate::utils::{emit, fill, reserve_label, State};
use vstd::prelude::*;

verus! {

pub type Flow = State<Instr>;

/// The state after a fresh label has been given `instr`, with that label.
pub open spec fn put(state: Flow, instr: Instr) -> Result<(Flow, Label), LtlError> {
    match emit(state, instr) {
        Some(placed) => Ok(placed),
        None => Err(LtlError::Exhausted),
    }
}

/// The state after a label has been set aside, with that label.
pub open spec fn hold(state: Flow) -> Result<(Flow, Label), LtlError> {
    match reserve_label(state) {
        Some(held) => Ok(held),
        None => Err(LtlError::Exhausted),
    }
}

/// Where the value of `reg` lives under `colors`.
pub open spec fn color_model(colors: Map<u32, Operand>, reg: Register) -> Result<
    Operand,
    LtlError,
> {
    match reg {
        Register::Pseudo(pseudo) => if colors.contains_key(pseudo.index) {
            Ok(colors[pseudo.index])
        } else {
            Err(LtlError::MissingRegisterColor(pseudo))
        },
        Register::Physical(physical) => Ok(Operand::Register(physical)),
    }
}

/// `mov src, dest`, then on to `next`.
pub open spec fn mov(src: Operand, dest: Operand, next: Label) -> Instr {
    Instr::EMBinop(Mbinop::MMov, src, dest, next)
}

/// The largest frame slot or slot count whose displacement can be said.
pub open spec fn slot_limit() -> int {
    0x0fff_ffff_ffff_fff0
}

/// The displacement of the frame slot `slot` from `Rbp`.
pub open spec fn slot_offset(slot: usize) -> int {
    -8 * (slot + 1)
}

/// The displacement from `Rbp` of the argument of index `index` that came
/// on the stack: above the saved `Rbp` and the return address.
pub open spec fn param_offset(index: u8) -> int {
    16 + 8 * (index - 6)
}

/// What becomes of a load from `addr + off` into `dest`: the address goes
/// through the first scratch register where it is spilled, the value through
/// the second where its destination is.
pub open spec fn load_model(
    state: Flow,
    label: Label,
    addr: Operand,
    off: StackOffset,
    dest: Operand,
    l: Label,
) -> Result<Flow, LtlError> {
    let after = match dest {
        Operand::Register(r) => Ok((state, l, r)),
        Operand::Spilled(_) => match put(
            state,
            mov(Operand::Register(PhysicalRegister::R11), dest, l),
        ) {
            Ok((state, post)) => Ok((state, post, PhysicalRegister::R11)),
            Err(error) => Err(error),
        },
    };
    match after {
        Ok((state, post, dest)) => match addr {
            Operand::Register(r) => Ok(fill(state, label, Instr::ELoad(r, off, dest, post))),
            Operand::Spilled(_) => match hold(state) {
                Ok((state, pre)) => Ok(
                    fill(
                        fill(
                            state,
                            label,
                            mov(addr, Operand::Register(PhysicalRegister::R10), pre),
                        ),
                        pre,
                        Instr::ELoad(PhysicalRegister::R10, off, dest, post),
                    ),
                ),
                Err(error) => Err(error),
            },
        },
        Err(error) => Err(error),
    }
}

/// What becomes of a store of `value` to `addr + off`: the address goes
/// through the first scratch register where it is spilled, the value through
/// the second where it is.
pub open spec fn store_model(
    state: Flow,
    label: Label,
    value: Operand,
    addr: Operand,
    off: StackOffset,
    l: Label,
) -> Result<Flow, LtlError> {
    let with_addr = match addr {
        Operand::Register(r) => Ok((state, label, r)),
        Operand::Spilled(_) => match hold(state) {
            Ok((state, next)) => Ok(
                (
                    fill(
                        state,
                        label,
                        mov(addr, Operand::Register(PhysicalRegister::R10), next),
                    ),
                    next,
                    PhysicalRegister::R10,
                ),
            ),
            Err(error) => Err(error),
        },
    };
    match with_addr {
        Ok((state, at, addr)) => match value {
            Operand::Register(r) => Ok(fill(state, at, Instr::EStore(r, addr, off, l))),
            Operand::Spilled(_) => match hold(state) {
                Ok((state, next)) => Ok(
                    fill(
                        fill(
                            state,
                            at,
                            mov(value, Operand::Register(PhysicalRegister::R11), next),
                        ),
                        next,
                        Instr::EStore(PhysicalRegister::R11, addr, off, l),
                    ),
                ),
                Err(error) => Err(error),
            },
        },
        Err(error) => Err(error),
    }
}

/// What becomes of the ERTL instruction `instr` that stands at `label`,
/// under the coloring `colors` with `count` frame slots.
pub open spec fn ltl_instr_model(
    colors: Map<u32, Operand>,
    count: usize,
    state: Flow,
    label: Label,
    instr: ertl::Instr,
) -> Result<Flow, LtlError> {
    match instr {
        ertl::Instr::EConst(c, r, l) => match color_model(colors, r) {
            Ok(color) => Ok(fill(state, label, Instr::EConst(c, color, l))),
            Err(error) => Err(error),
        },
        ertl::Instr::ELoad(addr, off, dest, l) => match color_model(colors, addr) {
            Ok(addr) => match color_model(colors, dest) {
                Ok(dest) => load_model(state, label, addr, off, dest, l),
                Err(error) => Err(error),
            },
            Err(error) => Err(error),
        },
        ertl::Instr::EStore(value, addr, off, l) => match color_model(colors, value) {
            Ok(value) => match color_model(colors, addr) {
                Ok(addr) => store_model(state, label, value, addr, off, l),
                Err(error) => Err(error),
            },
            Err(error) => Err(error),
        },
        ertl::Instr::EMUnop(op, r, l) => match color_model(colors, r) {
            Ok(color) => Ok(fill(state, label, Instr::EMunop(op, color, l))),
            Err(error) => Err(error),
        },
        ertl::Instr::EMBinop(op, r1, r2, l) => match color_model(colors, r1) {
            Ok(color_1) => match color_model(colors, r2) {
                Ok(color_2) => if op == Mbinop::MMov && color_1 == color_2 {
                    Ok(fill(state, label, Instr::EGoto(l)))
                } else {
                    Ok(fill(state, label, Instr::EMBinop(op, color_1, color_2, l)))
                },
                Err(error) => Err(error),
            },
            Err(error) => Err(error),
        },
        ertl::Instr::EMuBranch(op, r, l1, l2) => match color_model(colors, r) {
            Ok(color) => Ok(fill(state, label, Instr::EMuBranch(op, color, l1, l2))),
            Err(error) => Err(error),
        },
        ertl::Instr::EMbBranch(op, r1, r2, l1, l2) => match color_model(colors, r1) {
            Ok(color_1) => match color_model(colors, r2) {
                Ok(color_2) => Ok(
                    fill(state, label, Instr::EMbBranch(op, color_1, color_2, l1, l2)),
                ),
                Err(error) => Err(error),
            },
            Err(error) => Err(error),
        },
        ertl::Instr::ECall(name, _, l) => Ok(fill(state, label, Instr::ECall(name, l))),
        ertl::Instr::EGoto(l) => Ok(fill(state, label, Instr::EGoto(l))),
        ertl::Instr::EAllocFrame(l) => if count == 0 {
            Ok(fill(state, label, Instr::EGoto(l)))
        } else if count > slot_limit() {
            Err(LtlError::FrameTooLarge)
        } else {
            match put(
                state,
                Instr::EMunop(
                    Munop::Maddi((-8 * count) as i64),
                    Operand::Register(PhysicalRegister::Rsp),
                    l,
                ),
            ) {
                Ok((state, add)) => match put(
                    state,
                    mov(
                        Operand::Register(PhysicalRegister::Rsp),
                        Operand::Register(PhysicalRegister::Rbp),
                        add,
                    ),
                ) {
                    Ok((state, set)) => Ok(
                        fill(
                            state,
                            label,
                            Instr::EPush(Operand::Register(PhysicalRegister::Rbp), set),
                        ),
                    ),
                    Err(error) => Err(error),
                },
                Err(error) => Err(error),
            }
        },
        ertl::Instr::EDeleteFrame(l) => if count == 0 {
            Ok(fill(state, label, Instr::EGoto(l)))
        } else {
            match put(state, Instr::EPop(Operand::Register(PhysicalRegister::Rbp), l)) {
                Ok((state, pop)) => Ok(
                    fill(
                        state,
                        label,
                        mov(
                            Operand::Register(PhysicalRegister::Rbp),
                            Operand::Register(PhysicalRegister::Rsp),
                            pop,
                        ),
                    ),
                ),
                Err(error) => Err(error),
            }
        },
        ertl::Instr::EGetParam(index, dest, l) => match color_model(colors, dest) {
            Ok(Operand::Register(r)) => Ok(
                fill(
                    state,
                    label,
                    Instr::ELoad(PhysicalRegister::Rbp, param_offset(index) as i64, r, l),
                ),
            ),
            Ok(Operand::Spilled(slot)) => if slot > slot_limit() {
                Err(LtlError::FrameTooLarge)
            } else {
                match put(
                    state,
                    Instr::EStore(
                        PhysicalRegister::R10,
                        PhysicalRegister::Rbp,
                        slot_offset(slot) as i64,
                        l,
                    ),
                ) {
                    Ok((state, store)) => Ok(
                        fill(
                            state,
                            label,
                            Instr::ELoad(
                                PhysicalRegister::Rbp,
                                param_offset(index) as i64,
                                PhysicalRegister::R10,
                                store,
                            ),
                        ),
                    ),
                    Err(error) => Err(error),
                }
            },
            Err(error) => Err(error),
        },
        ertl::Instr::EPushParam(r, l) => match color_model(colors, r) {
            Ok(color) => Ok(fill(state, label, Instr::EPush(color, l))),
            Err(error) => Err(error),
        },
        ertl::Instr::EReturn => Ok(fill(state, label, Instr::EReturn)),
    }
}

/// The instructions of `graph` at the labels from `order[from]` on, each
/// lowered in turn.
pub open spec fn lower_all_model(
    colors: Map<u32, Operand>,
    count: usize,
    state: Flow,
    graph: Map<Label, ertl::Instr>,
    order: Seq<Label>,
    from: nat,
) -> Result<Flow, LtlError>
    decreases order.len() - from,
{
    if from < order.len() {
        match ltl_instr_model(colors, count, state, order[from as int], graph[order[from as int]]) {
            Ok(state) => lower_all_model(colors, count, state, graph, order, from + 1),
            Err(error) => Err(error),
        }
    } else {
        Ok(state)
    }
}

} // verus!

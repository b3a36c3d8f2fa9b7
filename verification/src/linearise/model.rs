use crate::common::Ident;
use crate::ertl::structure::register::PhysicalRegister;
use crate::ertl::structure::{Label, MbBranch, Mbinop, MuBranch, Munop};
use crate::linearise::error::LinearisingError;
use crate::linearise::x86_64::{AsmNode, Size, SizedPhysicalRegister, X86Operand};
use crate::ltl::structure::{FunView, Instr, Operand};
use vstd::prelude::*;

verus! {

/// The state of the traversal: the code emitted so far, the labels whose
/// instruction has been emitted, and the labels that some emitted jump goes
/// to.
pub ghost struct LinState {
    pub code: Seq<AsmNode>,
    pub visited: Set<Label>,
    pub labels: Set<Label>,
}

/// The condition of a jump.
#[derive(Debug, Clone, Copy, PartialEq, Eq, Structural)]
pub enum Cond {
    Z,
    Nz,
    Le,
    G,
    L,
    Ge,
}

/// The largest frame slot whose displacement can be said.
pub open spec fn slot_limit() -> int {
    0x0fff_ffff_ffff_fff0
}

/// The LTL operand as an operand of the machine: a register as itself, the
/// frame slot `s` as the word at `Rbp - 8 * (s + 1)`.
pub open spec fn operand_model(op: Operand) -> Result<X86Operand, LinearisingError> {
    match op {
        Operand::Register(r) => Ok(X86Operand::Register(r)),
        Operand::Spilled(slot) => if slot <= slot_limit() {
            Ok(X86Operand::Offset((-8 * (slot + 1)) as i64, PhysicalRegister::Rbp))
        } else {
            Err(LinearisingError::FrameTooLarge)
        },
    }
}

/// The register `r` as an operand.
pub open spec fn reg(r: PhysicalRegister) -> X86Operand {
    X86Operand::Register(r)
}

/// The low byte of the register `r`.
pub open spec fn low_byte(r: PhysicalRegister) -> SizedPhysicalRegister {
    SizedPhysicalRegister { register: r, size: Size::B }
}

/// The instruction that sets the low byte of `r` by the comparison `op`;
/// for an operator that is no comparison, by equality.
pub open spec fn setcc_model(op: Mbinop, r: PhysicalRegister) -> AsmNode {
    match op {
        Mbinop::MSetne => AsmNode::Setne(low_byte(r)),
        Mbinop::Msetl => AsmNode::Setl(low_byte(r)),
        Mbinop::Msetle => AsmNode::Setle(low_byte(r)),
        Mbinop::Msetg => AsmNode::Setg(low_byte(r)),
        Mbinop::Msetge => AsmNode::Setge(low_byte(r)),
        _ => AsmNode::Sete(low_byte(r)),
    }
}

/// The instruction that clears all of `r` but its low byte.
pub open spec fn widen_model(r: PhysicalRegister) -> AsmNode {
    AsmNode::And(Size::Q, X86Operand::Constant(255), reg(r))
}

/// The code of a comparison of the operand `r` with the constant `v`, which
/// leaves 1 or 0 in `r`: the comparison sets the low byte, and the rest is
/// cleared. A spilled operand goes through the first scratch register; the
/// constant goes through the second.
pub open spec fn set_constant_model(equal: bool, v: i64, r: Operand, x: X86Operand) -> Seq<
    AsmNode,
> {
    let held = match r {
        Operand::Register(register) => register,
        Operand::Spilled(_) => PhysicalRegister::R10,
    };
    let start = match r {
        Operand::Register(_) => Seq::<AsmNode>::empty(),
        Operand::Spilled(_) => Seq::<AsmNode>::empty().push(
            AsmNode::Mov(Size::Q, x, reg(PhysicalRegister::R10)),
        ),
    };
    let compared = start.push(
        AsmNode::Mov(Size::Q, X86Operand::Constant(v), reg(PhysicalRegister::R11)),
    ).push(AsmNode::Cmp(Size::Q, reg(held), reg(PhysicalRegister::R11))).push(
        if equal {
            AsmNode::Sete(low_byte(held))
        } else {
            AsmNode::Setne(low_byte(held))
        },
    ).push(widen_model(held));
    match r {
        Operand::Register(_) => compared,
        Operand::Spilled(_) => compared.push(AsmNode::Mov(Size::Q, reg(held), x)),
    }
}

/// The code of the binary operation `op` from the operand `r1`, which is
/// `x1`, into the operand `r2`, which is `x2`. Where both are spilled the
/// source goes through the first scratch register. A product into a frame
/// slot, and a comparison whose result goes to one, go through the second.
/// A comparison sets the low byte of its destination, and the rest is
/// cleared.
pub open spec fn binop_model(op: Mbinop, r1: Operand, x1: X86Operand, r2: Operand, x2: X86Operand) -> Result<
    Seq<AsmNode>,
    LinearisingError,
> {
    let both = r1 is Spilled && r2 is Spilled;
    let start = if both {
        Seq::<AsmNode>::empty().push(AsmNode::Mov(Size::Q, x1, reg(PhysicalRegister::R10)))
    } else {
        Seq::<AsmNode>::empty()
    };
    let src = if both {
        reg(PhysicalRegister::R10)
    } else {
        x1
    };
    match op {
        Mbinop::MMov => Ok(start.push(AsmNode::Mov(Size::Q, src, x2))),
        Mbinop::MAdd => Ok(start.push(AsmNode::Add(Size::Q, src, x2))),
        Mbinop::MSub => Ok(start.push(AsmNode::Sub(Size::Q, src, x2))),
        Mbinop::MMul => match r2 {
            Operand::Register(_) => Ok(start.push(AsmNode::Imul(Size::Q, src, x2))),
            Operand::Spilled(_) => Ok(
                start.push(AsmNode::Mov(Size::Q, x2, reg(PhysicalRegister::R11))).push(
                    AsmNode::Imul(Size::Q, src, reg(PhysicalRegister::R11)),
                ).push(AsmNode::Mov(Size::Q, reg(PhysicalRegister::R11), x2)),
            ),
        },
        Mbinop::MDiv => if r2 == Operand::Register(PhysicalRegister::Rax) {
            Ok(start.push(AsmNode::Cqto).push(AsmNode::IDivq(src)))
        } else {
            Err(LinearisingError::DivisionOutsideRax)
        },
        _ => match r2 {
            Operand::Register(register) => Ok(
                start.push(AsmNode::Cmp(Size::Q, src, x2)).push(setcc_model(op, register)).push(
                    widen_model(register),
                ),
            ),
            Operand::Spilled(_) => Ok(
                start.push(AsmNode::Mov(Size::Q, x2, reg(PhysicalRegister::R11))).push(
                    AsmNode::Cmp(Size::Q, src, reg(PhysicalRegister::R11)),
                ).push(setcc_model(op, PhysicalRegister::R11)).push(
                    widen_model(PhysicalRegister::R11),
                ).push(AsmNode::Mov(Size::Q, reg(PhysicalRegister::R11), x2)),
            ),
        },
    }
}

/// The code of the instruction `instr` itself, without its label and
/// without the jumps that lead on from it. For a branch it is the test.
pub open spec fn select_model(instr: Instr) -> Result<Seq<AsmNode>, LinearisingError> {
    let start = Seq::<AsmNode>::empty();
    match instr {
        Instr::ELoad(from, off, dest, _) => Ok(
            start.push(AsmNode::Mov(Size::Q, X86Operand::Offset(off, from), reg(dest))),
        ),
        Instr::EStore(value, addr, off, _) => Ok(
            start.push(AsmNode::Mov(Size::Q, reg(value), X86Operand::Offset(off, addr))),
        ),
        Instr::EGoto(_) => Ok(start),
        Instr::EReturn => Ok(start.push(AsmNode::Ret)),
        Instr::EConst(v, o, _) => match operand_model(o) {
            Ok(x) => Ok(start.push(AsmNode::Mov(Size::Q, X86Operand::Constant(v), x))),
            Err(error) => Err(error),
        },
        Instr::EMunop(op, r, _) => match operand_model(r) {
            Ok(x) => match op {
                Munop::Maddi(v) => Ok(
                    start.push(AsmNode::Add(Size::Q, X86Operand::Constant(v), x)),
                ),
                Munop::Mneg => Ok(start.push(AsmNode::Neg(Size::Q, x))),
                Munop::Msetei(v) => Ok(set_constant_model(true, v, r, x)),
                Munop::Msetnei(v) => Ok(set_constant_model(false, v, r, x)),
            },
            Err(error) => Err(error),
        },
        Instr::EMBinop(op, r1, r2, _) => match operand_model(r1) {
            Ok(x1) => match operand_model(r2) {
                Ok(x2) => binop_model(op, r1, x1, r2, x2),
                Err(error) => Err(error),
            },
            Err(error) => Err(error),
        },
        Instr::EMuBranch(op, r, _, _) => match operand_model(r) {
            Ok(x) => match op {
                MuBranch::MJlei(c) => Ok(
                    start.push(AsmNode::Cmp(Size::Q, X86Operand::Constant(c), x)),
                ),
                MuBranch::MJgi(c) => Ok(
                    start.push(AsmNode::Cmp(Size::Q, X86Operand::Constant(c), x)),
                ),
                _ => match r {
                    Operand::Register(_) => Ok(start.push(AsmNode::Test(Size::Q, x, x))),
                    Operand::Spilled(_) => Ok(
                        start.push(AsmNode::Mov(Size::Q, x, reg(PhysicalRegister::R10))).push(
                            AsmNode::Test(
                                Size::Q,
                                reg(PhysicalRegister::R10),
                                reg(PhysicalRegister::R10),
                            ),
                        ),
                    ),
                },
            },
            Err(error) => Err(error),
        },
        Instr::EMbBranch(_, r1, r2, _, _) => match operand_model(r1) {
            Ok(x1) => match operand_model(r2) {
                Ok(x2) => if r1 is Spilled && r2 is Spilled {
                    Ok(
                        start.push(AsmNode::Mov(Size::Q, x2, reg(PhysicalRegister::R10))).push(
                            AsmNode::Cmp(Size::Q, reg(PhysicalRegister::R10), x1),
                        ),
                    )
                } else {
                    Ok(start.push(AsmNode::Cmp(Size::Q, x2, x1)))
                },
                Err(error) => Err(error),
            },
            Err(error) => Err(error),
        },
        Instr::EPush(o, _) => match operand_model(o) {
            Ok(x) => Ok(start.push(AsmNode::Pushq(x))),
            Err(error) => Err(error),
        },
        Instr::ECall(name, _) => Ok(start.push(AsmNode::Call(name))),
        Instr::EPop(o, _) => match operand_model(o) {
            Ok(x) => Ok(start.push(AsmNode::Popq(x))),
            Err(error) => Err(error),
        },
    }
}

/// For a branch: the condition on which control goes to the first label,
/// and the two labels.
pub open spec fn branch_model(instr: Instr) -> Option<(Cond, Label, Label)> {
    match instr {
        Instr::EMuBranch(op, _, l1, l2) => Some(
            (
                match op {
                    MuBranch::MJz => Cond::Z,
                    MuBranch::MJnz => Cond::Nz,
                    MuBranch::MJlei(_) => Cond::Le,
                    MuBranch::MJgi(_) => Cond::G,
                },
                l1,
                l2,
            ),
        ),
        Instr::EMbBranch(op, _, _, l1, l2) => Some(
            (
                match op {
                    MbBranch::MJl => Cond::L,
                    MbBranch::MJle => Cond::Le,
                },
                l1,
                l2,
            ),
        ),
        _ => None,
    }
}

/// The jump to `label` on the condition `cond`.
pub open spec fn jump_model(cond: Cond, label: Label) -> AsmNode {
    match cond {
        Cond::Z => AsmNode::Jz(label),
        Cond::Nz => AsmNode::Jnz(label),
        Cond::Le => AsmNode::Jle(label),
        Cond::G => AsmNode::Jg(label),
        Cond::L => AsmNode::Jl(label),
        Cond::Ge => AsmNode::Jge(label),
    }
}

/// The condition that holds where `cond` does not.
pub open spec fn negate_model(cond: Cond) -> Cond {
    match cond {
        Cond::Z => Cond::Nz,
        Cond::Nz => Cond::Z,
        Cond::Le => Cond::G,
        Cond::G => Cond::Le,
        Cond::L => Cond::Ge,
        Cond::Ge => Cond::L,
    }
}

/// How many labels of `graph` are not in `visited`: what is left to
/// traverse.
pub open spec fn unvisited(graph: Map<Label, Instr>, visited: Set<Label>) -> nat {
    remaining(crate::utils::ordered(graph.dom()), visited)
}

/// The number of entries of `order` that are not in `visited`.
pub open spec fn remaining(order: Seq<Label>, visited: Set<Label>) -> nat
    decreases order.len(),
{
    if order.len() == 0 {
        0
    } else {
        remaining(order.drop_last(), visited) + if visited.contains(order.last()) {
            0nat
        } else {
            1nat
        }
    }
}

/// Visiting a label of `order` that was not visited leaves fewer to visit.
pub proof fn lemma_remaining_shrinks(order: Seq<Label>, visited: Set<Label>, label: Label)
    requires
        order.contains(label),
        !visited.contains(label),
    ensures
        remaining(order, visited.insert(label)) < remaining(order, visited),
    decreases order.len(),
{
    if order.len() > 0 {
        let rest = order.drop_last();
        if rest.contains(label) {
            lemma_remaining_shrinks(rest, visited, label);
        } else {
            lemma_remaining_grows(rest, visited, visited.insert(label));
            let i = choose|i: int| 0 <= i < order.len() && order[i] == label;
            if i < order.len() - 1 {
                assert(rest[i] == label);
            }
        }
    }
}

/// Visiting more leaves no more to visit.
pub proof fn lemma_remaining_grows(order: Seq<Label>, visited: Set<Label>, more: Set<Label>)
    requires
        visited.subset_of(more),
    ensures
        remaining(order, more) <= remaining(order, visited),
    decreases order.len(),
{
    if order.len() > 0 {
        lemma_remaining_grows(order.drop_last(), visited, more);
    }
}

/// The state with `node` emitted.
pub open spec fn emitted(state: LinState, node: AsmNode) -> LinState {
    LinState { code: state.code.push(node), visited: state.visited, labels: state.labels }
}

/// The state with the nodes of `code` emitted.
pub open spec fn emitted_all(state: LinState, code: Seq<AsmNode>) -> LinState {
    LinState { code: state.code + code, visited: state.visited, labels: state.labels }
}

/// The state with `label` noted as the target of a jump.
pub open spec fn needed(state: LinState, label: Label) -> LinState {
    LinState { code: state.code, visited: state.visited, labels: state.labels.insert(label) }
}

/// The state with `label` visited and its label emitted.
pub open spec fn entered(state: LinState, label: Label) -> LinState {
    LinState {
        code: state.code.push(AsmNode::Label(label)),
        visited: state.visited.insert(label),
        labels: state.labels,
    }
}

/// The traversal from `label` on. A label that has been visited gets a jump
/// to it and is noted as a target. Another label is visited: its own label
/// is emitted, then its instruction, then what follows it. The labels of
/// `graph` that are left to visit bound the traversal.
pub open spec fn lin_model(graph: Map<Label, Instr>, state: LinState, label: Label) -> Result<
    LinState,
    LinearisingError,
>
    decreases unvisited(graph, state.visited), 0nat,
{
    if state.visited.contains(label) {
        Ok(emitted(needed(state, label), AsmNode::Jmp(label)))
    } else if graph.contains_key(label) && unvisited(graph, state.visited.insert(label))
        < unvisited(graph, state.visited) {
        instr_model(graph, entered(state, label), graph[label])
    } else {
        Err(LinearisingError::UnknownLabel(label))
    }
}

/// The code of `instr` and of what follows it. After a branch the code of
/// the second label follows, so that control falls through to it, and a
/// jump on the condition goes to the first; where the second has been
/// visited and the first has not, it is the other way round, on the
/// opposite condition; where both have been visited, two jumps lead on.
pub open spec fn instr_model(graph: Map<Label, Instr>, state: LinState, instr: Instr) -> Result<
    LinState,
    LinearisingError,
>
    decreases unvisited(graph, state.visited), 1nat,
{
    match select_model(instr) {
        Ok(code) => {
            let state = emitted_all(state, code);
            match branch_model(instr) {
                Some((cond, l1, l2)) => if !state.visited.contains(l2) {
                    match lin_model(
                        graph,
                        needed(emitted(state, jump_model(cond, l1)), l1),
                        l2,
                    ) {
                        Ok(after) => if unvisited(graph, after.visited) <= unvisited(graph, state.visited) {
                            lin_model(graph, after, l1)
                        } else {
                            Err(LinearisingError::UnknownLabel(l1))
                        },
                        Err(error) => Err(error),
                    }
                } else if !state.visited.contains(l1) {
                    match lin_model(
                        graph,
                        needed(emitted(state, jump_model(negate_model(cond), l2)), l2),
                        l1,
                    ) {
                        Ok(after) => if unvisited(graph, after.visited) <= unvisited(graph, state.visited) {
                            lin_model(graph, after, l2)
                        } else {
                            Err(LinearisingError::UnknownLabel(l2))
                        },
                        Err(error) => Err(error),
                    }
                } else {
                    Ok(
                        needed(
                            needed(
                                emitted(emitted(state, jump_model(cond, l1)), AsmNode::Jmp(l2)),
                                l1,
                            ),
                            l2,
                        ),
                    )
                },
                None => if instr.successors().len() == 1 {
                    lin_model(graph, state, instr.successors()[0])
                } else {
                    Ok(state)
                },
            }
        },
        Err(error) => Err(error),
    }
}

/// The nodes of `code` but for the labels that are not in `labels`.
pub open spec fn keep_model(code: Seq<AsmNode>, labels: Set<Label>) -> Seq<AsmNode>
    decreases code.len(),
{
    if code.len() == 0 {
        Seq::empty()
    } else {
        let rest = keep_model(code.drop_last(), labels);
        match code.last() {
            AsmNode::Label(l) => if labels.contains(l) {
                rest.push(code.last())
            } else {
                rest
            },
            _ => rest.push(code.last()),
        }
    }
}

/// The traversal of the functions from `funs[from]` on, each after the
/// declaration of its name.
pub open spec fn funs_model(funs: Seq<FunView>, state: LinState, from: nat) -> Result<
    LinState,
    LinearisingError,
>
    decreases funs.len() - from,
{
    if from < funs.len() {
        match lin_model(
            funs[from as int].body,
            emitted(state, AsmNode::DeclFun(funs[from as int].name)),
            funs[from as int].entry,
        ) {
            Ok(state) => funs_model(funs, state, from + 1),
            Err(error) => Err(error),
        }
    } else {
        Ok(state)
    }
}

/// The text of a program: the directive that makes `main` global, then the
/// code of the functions without the labels that no jump goes to.
pub open spec fn text_model(funs: Seq<FunView>) -> Result<Seq<AsmNode>, LinearisingError> {
    match funs_model(
        funs,
        LinState { code: Seq::empty(), visited: Set::empty(), labels: Set::empty() },
        0,
    ) {
        Ok(state) => Ok(
            seq![AsmNode::Globl(Ident { id: crate::common::MAIN })] + keep_model(
                state.code,
                state.labels,
            ),
        ),
        Err(error) => Err(error),
    }
}

/// Every label that is noted as a target is the target of an emitted jump.
pub open spec fn covered(state: LinState) -> bool {
    forall|l: Label| #[trigger]
        state.labels.contains(l) ==> exists|i: int|
            0 <= i < state.code.len() && (#[trigger] state.code[i]).jumps_to(l)
}

/// Every label of `code` is the target of a jump of `code`.
pub open spec fn targeted(code: Seq<AsmNode>) -> bool {
    forall|i: int|
        0 <= i < code.len() && #[trigger] code[i] is Label ==> exists|j: int|
            0 <= j < code.len() && (#[trigger] code[j]).jumps_to(code[i]->Label_0)
}

/// What is kept of `code`: every node that is no label, and of the labels
/// those in `labels`, and nothing else.
pub proof fn lemma_keep(code: Seq<AsmNode>, labels: Set<Label>)
    ensures
        forall|i: int|
            0 <= i < code.len() && !(#[trigger] code[i] is Label) ==> keep_model(
                code,
                labels,
            ).contains(code[i]),
        forall|j: int|
            0 <= j < keep_model(code, labels).len() ==> code.contains(
                #[trigger] keep_model(code, labels)[j],
            ),
        forall|j: int|
            0 <= j < keep_model(code, labels).len() && #[trigger] keep_model(code, labels)[j]
                is Label ==> labels.contains(keep_model(code, labels)[j]->Label_0),
    decreases code.len(),
{
    if code.len() > 0 {
        let rest = code.drop_last();
        lemma_keep(rest, labels);
        let kept_rest = keep_model(rest, labels);
        let kept = keep_model(code, labels);
        assert forall|i: int|
            0 <= i < code.len() && !(#[trigger] code[i] is Label) implies kept.contains(
            code[i],
        ) by {
            if i < rest.len() {
                assert(rest[i] == code[i]);
                assert(kept_rest.contains(rest[i]));
                let j = choose|j: int| 0 <= j < kept_rest.len() && kept_rest[j] == rest[i];
                assert(kept[j] == code[i]);
            } else {
                assert(kept[kept.len() - 1] == code[i]);
            }
        }
        assert forall|j: int| 0 <= j < kept.len() implies code.contains(#[trigger] kept[j]) by {
            if j < kept_rest.len() {
                assert(kept[j] == kept_rest[j]);
                assert(rest.contains(kept_rest[j]));
                let i = choose|i: int| 0 <= i < rest.len() && rest[i] == kept_rest[j];
                assert(code[i] == kept[j]);
            } else {
                assert(code[code.len() - 1] == kept[j]);
            }
        }
        assert forall|j: int| 0 <= j < kept.len() && #[trigger] kept[j] is Label implies labels.contains(
            kept[j]->Label_0,
        ) by {
            if j < kept_rest.len() {
                assert(kept[j] == kept_rest[j]);
            }
        }
    }
}

} // verus!

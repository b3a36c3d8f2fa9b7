pub mod context;
pub mod error;
pub mod model;
pub mod printer;
pub mod x86_64;

use crate::common::Ident;
use crate::ertl::structure::register::{PhysicalRegister, TMP_1, TMP_2};
use crate::ertl::structure::{Label, MbBranch, Mbinop, MuBranch, Munop};
use crate::linearise::context::Context;
use crate::linearise::error::LinearisingError;
use crate::linearise::model::{
    binop_model, branch_model, covered, emitted, emitted_all, entered, funs_model, instr_model,
    jump_model, keep_model, lemma_keep, lemma_remaining_grows, lemma_remaining_shrinks, lin_model,
    needed, negate_model, operand_model, select_model, set_constant_model, setcc_model, targeted,
    text_model, unvisited, widen_model, Cond, LinState,
};
use crate::linearise::x86_64::{
    Asm, AsmNode, Program, Section, Size, SizedPhysicalRegister, X86Operand,
};
use crate::ltl::structure::{File, Graph, Instr, Operand};
use crate::utils::{lemma_ordered_lists, ordered, LabelSet};
use vstd::prelude::*;

verus! {

pub type LinearisingResult<T> = Result<T, LinearisingError>;

/// The LTL operand as an operand of the machine.
pub fn operand(op: Operand) -> (r: LinearisingResult<X86Operand>)
    ensures
        r == operand_model(op),
{
    match op {
        Operand::Register(r) => Ok(X86Operand::Register(r)),
        Operand::Spilled(slot) => {
            let wide: u64 = slot as u64;
            if wide > 0x0fff_ffff_ffff_fff0 {
                return Err(LinearisingError::FrameTooLarge);
            }
            Ok(X86Operand::Offset(-8 * (wide as i64 + 1), PhysicalRegister::Rbp))
        },
    }
}

/// The instruction that sets the low byte of `r` by the comparison `op`.
pub fn setcc(op: Mbinop, r: PhysicalRegister) -> (node: AsmNode)
    ensures
        node == setcc_model(op, r),
{
    let byte = SizedPhysicalRegister::new(r, Size::B);
    match op {
        Mbinop::MSetne => AsmNode::Setne(byte),
        Mbinop::Msetl => AsmNode::Setl(byte),
        Mbinop::Msetle => AsmNode::Setle(byte),
        Mbinop::Msetg => AsmNode::Setg(byte),
        Mbinop::Msetge => AsmNode::Setge(byte),
        _ => AsmNode::Sete(byte),
    }
}

/// No node of `code` has two operands in memory.
pub open spec fn clean(code: Seq<AsmNode>) -> bool {
    forall|i: int| 0 <= i < code.len() ==> !(#[trigger] code[i]).memory_to_memory()
}

/// The instruction that clears all of `r` but its low byte.
pub fn widen(r: PhysicalRegister) -> (node: AsmNode)
    ensures
        node == widen_model(r),
        !node.memory_to_memory(),
{
    AsmNode::And(Size::Q, X86Operand::Constant(255), X86Operand::Register(r))
}

/// The code of a comparison of the operand `r`, which is `x`, with the
/// constant `v`.
pub fn set_constant(equal: bool, v: i64, r: Operand, x: X86Operand) -> (code: Vec<AsmNode>)
    ensures
        code@ == set_constant_model(equal, v, r, x),
        clean(code@),
{
    let mut code: Vec<AsmNode> = Vec::new();
    let held = match r {
        Operand::Register(register) => register,
        Operand::Spilled(_) => {
            code.push(AsmNode::Mov(Size::Q, x, X86Operand::Register(TMP_1)));
            TMP_1
        },
    };
    code.push(AsmNode::Mov(Size::Q, X86Operand::Constant(v), X86Operand::Register(TMP_2)));
    code.push(AsmNode::Cmp(Size::Q, X86Operand::Register(held), X86Operand::Register(TMP_2)));
    let byte = SizedPhysicalRegister::new(held, Size::B);
    if equal {
        code.push(AsmNode::Sete(byte));
    } else {
        code.push(AsmNode::Setne(byte));
    }
    code.push(widen(held));
    match r {
        Operand::Register(_) => {},
        Operand::Spilled(_) => {
            code.push(AsmNode::Mov(Size::Q, X86Operand::Register(held), x));
        },
    }
    code
}

/// The code of the binary operation `op` from `r1`, which is `x1`, into
/// `r2`, which is `x2`.
pub fn binop(op: Mbinop, r1: Operand, x1: X86Operand, r2: Operand, x2: X86Operand) -> (r:
    LinearisingResult<Vec<AsmNode>>)
    ensures
        match binop_model(op, r1, x1, r2, x2) {
            Ok(code) => r is Ok && r->Ok_0@ == code,
            Err(error) => r is Err && r->Err_0 == error,
        },
        r is Ok && (r1 is Spilled ==> x1.in_memory()) && (r1 is Register ==> !x1.in_memory()) && (
        r2 is Register ==> !x2.in_memory()) ==> clean(r->Ok_0@),
{
    let mut code: Vec<AsmNode> = Vec::new();
    let both = match (r1, r2) {
        (Operand::Spilled(_), Operand::Spilled(_)) => true,
        _ => false,
    };
    let src = if both {
        code.push(AsmNode::Mov(Size::Q, x1, X86Operand::Register(TMP_1)));
        X86Operand::Register(TMP_1)
    } else {
        x1
    };
    match op {
        Mbinop::MMov => {
            code.push(AsmNode::Mov(Size::Q, src, x2));
        },
        Mbinop::MAdd => {
            code.push(AsmNode::Add(Size::Q, src, x2));
        },
        Mbinop::MSub => {
            code.push(AsmNode::Sub(Size::Q, src, x2));
        },
        Mbinop::MMul => match r2 {
            Operand::Register(_) => {
                code.push(AsmNode::Imul(Size::Q, src, x2));
            },
            Operand::Spilled(_) => {
                code.push(AsmNode::Mov(Size::Q, x2, X86Operand::Register(TMP_2)));
                code.push(AsmNode::Imul(Size::Q, src, X86Operand::Register(TMP_2)));
                code.push(AsmNode::Mov(Size::Q, X86Operand::Register(TMP_2), x2));
            },
        },
        Mbinop::MDiv => {
            if r2 == Operand::Register(PhysicalRegister::Rax) {
                code.push(AsmNode::Cqto);
                code.push(AsmNode::IDivq(src));
            } else {
                return Err(LinearisingError::DivisionOutsideRax);
            }
        },
        _ => match r2 {
            Operand::Register(register) => {
                code.push(AsmNode::Cmp(Size::Q, src, x2));
                code.push(setcc(op, register));
                code.push(widen(register));
            },
            Operand::Spilled(_) => {
                code.push(AsmNode::Mov(Size::Q, x2, X86Operand::Register(TMP_2)));
                code.push(AsmNode::Cmp(Size::Q, src, X86Operand::Register(TMP_2)));
                code.push(setcc(op, TMP_2));
                code.push(widen(TMP_2));
                code.push(AsmNode::Mov(Size::Q, X86Operand::Register(TMP_2), x2));
            },
        },
    }
    Ok(code)
}

/// The code of the instruction `instr` itself, without its label and
/// without the jumps that lead on from it. For a branch it is the test.
pub fn select(instr: &Instr) -> (r: LinearisingResult<Vec<AsmNode>>)
    ensures
        match select_model(*instr) {
            Ok(code) => r is Ok && r->Ok_0@ == code,
            Err(error) => r is Err && r->Err_0 == error,
        },
        r is Ok ==> clean(r->Ok_0@),
{
    let mut code: Vec<AsmNode> = Vec::new();
    match instr {
        Instr::ELoad(from, off, dest, _) => {
            code.push(
                AsmNode::Mov(Size::Q, X86Operand::Offset(*off, *from), X86Operand::Register(*dest)),
            );
        },
        Instr::EStore(value, addr, off, _) => {
            code.push(
                AsmNode::Mov(Size::Q, X86Operand::Register(*value), X86Operand::Offset(*off, *addr)),
            );
        },
        Instr::EGoto(_) => {},
        Instr::EReturn => {
            code.push(AsmNode::Ret);
        },
        Instr::EConst(v, o, _) => {
            let x = operand(*o)?;
            code.push(AsmNode::Mov(Size::Q, X86Operand::Constant(*v), x));
        },
        Instr::EMunop(op, r, _) => {
            let x = operand(*r)?;
            match op {
                Munop::Maddi(v) => {
                    code.push(AsmNode::Add(Size::Q, X86Operand::Constant(*v), x));
                },
                Munop::Mneg => {
                    code.push(AsmNode::Neg(Size::Q, x));
                },
                Munop::Msetei(v) => {
                    return Ok(set_constant(true, *v, *r, x));
                },
                Munop::Msetnei(v) => {
                    return Ok(set_constant(false, *v, *r, x));
                },
            }
        },
        Instr::EMBinop(op, r1, r2, _) => {
            let x1 = operand(*r1)?;
            let x2 = operand(*r2)?;
            return binop(*op, *r1, x1, *r2, x2);
        },
        Instr::EMuBranch(op, r, _, _) => {
            let x = operand(*r)?;
            match op {
                MuBranch::MJlei(c) | MuBranch::MJgi(c) => {
                    code.push(AsmNode::Cmp(Size::Q, X86Operand::Constant(*c), x));
                },
                _ => match r {
                    Operand::Register(_) => {
                        code.push(AsmNode::Test(Size::Q, x, x));
                    },
                    Operand::Spilled(_) => {
                        code.push(AsmNode::Mov(Size::Q, x, X86Operand::Register(TMP_1)));
                        code.push(
                            AsmNode::Test(
                                Size::Q,
                                X86Operand::Register(TMP_1),
                                X86Operand::Register(TMP_1),
                            ),
                        );
                    },
                },
            }
        },
        Instr::EMbBranch(_, r1, r2, _, _) => {
            let x1 = operand(*r1)?;
            let x2 = operand(*r2)?;
            let both = match (r1, r2) {
                (Operand::Spilled(_), Operand::Spilled(_)) => true,
                _ => false,
            };
            if both {
                code.push(AsmNode::Mov(Size::Q, x2, X86Operand::Register(TMP_1)));
                code.push(AsmNode::Cmp(Size::Q, X86Operand::Register(TMP_1), x1));
            } else {
                code.push(AsmNode::Cmp(Size::Q, x2, x1));
            }
        },
        Instr::EPush(o, _) => {
            let x = operand(*o)?;
            code.push(AsmNode::Pushq(x));
        },
        Instr::ECall(name, _) => {
            code.push(AsmNode::Call(*name));
        },
        Instr::EPop(o, _) => {
            let x = operand(*o)?;
            code.push(AsmNode::Popq(x));
        },
    }
    Ok(code)
}

/// For a branch: the condition on which control goes to the first label,
/// and the two labels.
pub fn branch(instr: &Instr) -> (r: Option<(Cond, Label, Label)>)
    ensures
        r == branch_model(*instr),
{
    match instr {
        Instr::EMuBranch(op, _, l1, l2) => {
            let cond = match op {
                MuBranch::MJz => Cond::Z,
                MuBranch::MJnz => Cond::Nz,
                MuBranch::MJlei(_) => Cond::Le,
                MuBranch::MJgi(_) => Cond::G,
            };
            Some((cond, *l1, *l2))
        },
        Instr::EMbBranch(op, _, _, l1, l2) => {
            let cond = match op {
                MbBranch::MJl => Cond::L,
                MbBranch::MJle => Cond::Le,
            };
            Some((cond, *l1, *l2))
        },
        _ => None,
    }
}

/// The jump to `label` on the condition `cond`.
pub fn jump(cond: Cond, label: Label) -> (node: AsmNode)
    ensures
        node == jump_model(cond, label),
        node.jumps_to(label),
{
    match cond {
        Cond::Z => AsmNode::Jz(label),
        Cond::Nz => AsmNode::Jnz(label),
        Cond::Le => AsmNode::Jle(label),
        Cond::G => AsmNode::Jg(label),
        Cond::L => AsmNode::Jl(label),
        Cond::Ge => AsmNode::Jge(label),
    }
}

/// The condition that holds where `cond` does not.
pub fn negate(cond: Cond) -> (r: Cond)
    ensures
        r == negate_model(cond),
{
    match cond {
        Cond::Z => Cond::Nz,
        Cond::Nz => Cond::Z,
        Cond::Le => Cond::G,
        Cond::G => Cond::Le,
        Cond::L => Cond::Ge,
        Cond::Ge => Cond::L,
    }
}

/// The one label that control reaches after `instr`, if it is one.
pub fn next_of(instr: &Instr) -> (r: Option<Label>)
    ensures
        match r {
            Some(l) => instr.successors() == seq![l],
            None => instr.successors().len() != 1,
        },
{
    match instr {
        Instr::ELoad(_, _, _, l)
        | Instr::EStore(_, _, _, l)
        | Instr::EGoto(l)
        | Instr::EConst(_, _, l)
        | Instr::EMunop(_, _, l)
        | Instr::EMBinop(_, _, _, l)
        | Instr::EPush(_, l)
        | Instr::ECall(_, l)
        | Instr::EPop(_, l) => Some(*l),
        _ => None,
    }
}

/// Emitting keeps every noted target the target of an emitted jump, and
/// emitting clean code keeps the code clean.
pub proof fn lemma_covered_emitted(state: LinState, code: Seq<AsmNode>)
    ensures
        covered(state) ==> covered(emitted_all(state, code)),
        clean(state.code) && clean(code) ==> clean(emitted_all(state, code).code),
{
    let after = emitted_all(state, code);
    if covered(state) {
        assert forall|l: Label| #[trigger] after.labels.contains(l) implies exists|i: int|
            0 <= i < after.code.len() && (#[trigger] after.code[i]).jumps_to(l) by {
            let i = choose|i: int|
                0 <= i < state.code.len() && (#[trigger] state.code[i]).jumps_to(l);
            assert(after.code[i] == state.code[i]);
        }
    }
    if clean(state.code) && clean(code) {
        assert forall|i: int| 0 <= i < after.code.len() implies !(
        #[trigger] after.code[i]).memory_to_memory() by {
            if i < state.code.len() {
                assert(after.code[i] == state.code[i]);
            } else {
                assert(after.code[i] == code[i - state.code.len()]);
            }
        }
    }
}

/// Emitting a jump to a label and noting the label keeps every noted target
/// the target of an emitted jump, and keeps the code clean.
pub proof fn lemma_covered_jump(state: LinState, node: AsmNode, label: Label)
    requires
        node.jumps_to(label),
    ensures
        covered(state) ==> covered(needed(emitted(state, node), label)),
        covered(state) ==> covered(emitted(needed(state, label), node)),
        covered(state) ==> covered(emitted(state, node)),
        clean(state.code) ==> clean(emitted(state, node).code),
{
    let plain = emitted(state, node);
    if clean(state.code) {
        assert forall|i: int| 0 <= i < plain.code.len() implies !(
        #[trigger] plain.code[i]).memory_to_memory() by {
            if i < state.code.len() {
                assert(plain.code[i] == state.code[i]);
            }
        }
    }
    if covered(state) {
        let after = needed(emitted(state, node), label);
        assert forall|l: Label| #[trigger] after.labels.contains(l) implies exists|i: int|
            0 <= i < after.code.len() && (#[trigger] after.code[i]).jumps_to(l) by {
            if l == label {
                assert(after.code[state.code.len() as int].jumps_to(l));
            } else {
                let i = choose|i: int|
                    0 <= i < state.code.len() && (#[trigger] state.code[i]).jumps_to(l);
                assert(after.code[i] == state.code[i]);
            }
        }
        let other = emitted(needed(state, label), node);
        assert(other.code == after.code && other.labels == after.labels);
        assert forall|l: Label| #[trigger] plain.labels.contains(l) implies exists|i: int|
            0 <= i < plain.code.len() && (#[trigger] plain.code[i]).jumps_to(l) by {
            let i = choose|i: int|
                0 <= i < state.code.len() && (#[trigger] state.code[i]).jumps_to(l);
            assert(plain.code[i] == state.code[i]);
        }
    }
}

/// Entering a label keeps every noted target the target of an emitted jump,
/// and keeps the code clean.
pub proof fn lemma_entered(state: LinState, label: Label)
    ensures
        kept(state, entered(state, label)),
{
    let after = entered(state, label);
    if covered(state) {
        assert forall|l: Label| #[trigger] after.labels.contains(l) implies exists|i: int|
            0 <= i < after.code.len() && (#[trigger] after.code[i]).jumps_to(l) by {
            let i = choose|i: int|
                0 <= i < state.code.len() && (#[trigger] state.code[i]).jumps_to(l);
            assert(after.code[i] == state.code[i]);
        }
    }
    if clean(state.code) {
        assert forall|i: int| 0 <= i < after.code.len() implies !(
        #[trigger] after.code[i]).memory_to_memory() by {
            if i < state.code.len() {
                assert(after.code[i] == state.code[i]);
            }
        }
    }
}

/// What the traversal keeps: what is visited stays visited, every noted
/// target stays the target of an emitted jump, and no node has two operands
/// in memory.
pub open spec fn kept(before: LinState, after: LinState) -> bool {
    &&& before.visited.subset_of(after.visited)
    &&& covered(before) ==> covered(after)
    &&& clean(before.code) ==> clean(after.code)
}

/// The traversal from `label` on: see `lin_model`.
pub fn lin(context: &mut Context, graph: &Graph, label: Label) -> (r: LinearisingResult<()>)
    ensures
        match lin_model(graph@, old(context)@, label) {
            Ok(state) => r is Ok && final(context)@ == state && kept(old(context)@, state),
            Err(error) => r is Err && r->Err_0 == error,
        },
    decreases unvisited(graph@, old(context)@.visited), 0nat,
{
    let ghost order = ordered(graph@.dom());
    proof {
        lemma_ordered_lists(graph@.dom());
    }
    if context.visited.contains(label) {
        proof {
            lemma_covered_jump(context@, AsmNode::Jmp(label), label);
        }
        context.need_label(label);
        context.emit(AsmNode::Jmp(label));
        Ok(())
    } else {
        match graph.instrs.get(label) {
            Some(found) => {
                proof {
                    assert(graph@.dom().contains(label));
                    assert(order.contains(label));
                    lemma_remaining_shrinks(order, context@.visited, label);
                    lemma_entered(context@, label);
                }
                context.enter(label);
                instr(context, graph, found)
            },
            None => Err(LinearisingError::UnknownLabel(label)),
        }
    }
}

/// The code of `instr` and of what follows it: see `instr_model`.
pub fn instr(context: &mut Context, graph: &Graph, current: &Instr) -> (r: LinearisingResult<()>)
    ensures
        match instr_model(graph@, old(context)@, *current) {
            Ok(state) => r is Ok && final(context)@ == state && kept(old(context)@, state),
            Err(error) => r is Err && r->Err_0 == error,
        },
    decreases unvisited(graph@, old(context)@.visited), 1nat,
{
    let ghost order = ordered(graph@.dom());
    let code = select(current)?;
    proof {
        lemma_covered_emitted(context@, code@);
    }
    context.emit_all(&code);
    let ghost selected = context@;
    match branch(current) {
        Some((cond, l1, l2)) => {
            if !context.visited.contains(l2) {
                let node = jump(cond, l1);
                proof {
                    lemma_covered_jump(selected, node, l1);
                }
                context.emit(node);
                context.need_label(l1);
                lin(context, graph, l2)?;
                proof {
                    lemma_remaining_grows(order, selected.visited, context@.visited);
                }
                lin(context, graph, l1)
            } else if !context.visited.contains(l1) {
                let node = jump(negate(cond), l2);
                proof {
                    lemma_covered_jump(selected, node, l2);
                }
                context.emit(node);
                context.need_label(l2);
                lin(context, graph, l1)?;
                proof {
                    lemma_remaining_grows(order, selected.visited, context@.visited);
                }
                lin(context, graph, l2)
            } else {
                let node = jump(cond, l1);
                proof {
                    lemma_covered_jump(selected, node, l1);
                    lemma_covered_jump(emitted(selected, node), AsmNode::Jmp(l2), l2);
                    lemma_covered_jump(
                        emitted(emitted(selected, node), AsmNode::Jmp(l2)),
                        node,
                        l1,
                    );
                }
                context.emit(node);
                context.emit(AsmNode::Jmp(l2));
                context.need_label(l1);
                context.need_label(l2);
                proof {
                    let after = context@;
                    assert forall|l: Label| #[trigger] after.labels.contains(l) && covered(
                        selected,
                    ) implies exists|i: int|
                        0 <= i < after.code.len() && (#[trigger] after.code[i]).jumps_to(l) by {
                        if l == l1 {
                            assert(after.code[selected.code.len() as int].jumps_to(l));
                        } else if l == l2 {
                            assert(after.code[selected.code.len() as int + 1].jumps_to(l));
                        } else {
                            let i = choose|i: int|
                                0 <= i < selected.code.len() && (
                                #[trigger] selected.code[i]).jumps_to(l);
                            assert(after.code[i] == selected.code[i]);
                        }
                    }
                }
                Ok(())
            }
        },
        None => match next_of(current) {
            Some(next) => lin(context, graph, next),
            None => Ok(()),
        },
    }
}

/// The nodes of `code` but for the labels that are not in `labels`.
pub fn keep(code: &Vec<AsmNode>, labels: &LabelSet) -> (r: Vec<AsmNode>)
    ensures
        r@ == keep_model(code@, labels@),
{
    let mut out: Vec<AsmNode> = Vec::new();
    let mut i: usize = 0;
    while i < code.len()
        invariant
            i <= code@.len(),
            out@ == keep_model(code@.take(i as int), labels@),
        decreases code@.len() - i,
    {
        let node = code[i];
        proof {
            assert(code@.take(i + 1).drop_last() =~= code@.take(i as int));
            assert(code@.take(i + 1).last() == node);
        }
        match node {
            AsmNode::Label(l) => {
                if labels.contains(l) {
                    out.push(node);
                }
            },
            _ => {
                out.push(node);
            },
        }
        i = i + 1;
    }
    assert(code@.take(code@.len() as int) =~= code@);
    out
}

/// The text of the program: the directive that makes `main` global, then
/// the code of the functions, in the order of the file, without the labels
/// that no jump goes to. In the result every label is the target of a jump,
/// and no node has two operands in memory.
pub fn text(file: &File) -> (r: LinearisingResult<Asm>)
    ensures
        match text_model(file@) {
            Ok(nodes) => r is Ok && r->Ok_0@ == nodes,
            Err(error) => r is Err && r->Err_0 == error,
        },
        r is Ok ==> targeted(r->Ok_0@) && clean(r->Ok_0@),
{
    let mut context = Context::new(Asm::new(Vec::new()), LabelSet::new(), LabelSet::new());
    let ghost start = context@;
    assert(start == (LinState {
        code: Seq::<AsmNode>::empty(),
        visited: Set::<Label>::empty(),
        labels: Set::<Label>::empty(),
    }));
    assert(covered(start) && clean(start.code));
    let mut i: usize = 0;
    while i < file.funs.len()
        invariant
            i <= file.funs@.len(),
            file@.len() == file.funs@.len(),
            funs_model(file@, start, 0) == funs_model(file@, context@, i as nat),
            start == (LinState {
                code: Seq::<AsmNode>::empty(),
                visited: Set::<Label>::empty(),
                labels: Set::<Label>::empty(),
            }),
            covered(context@),
            clean(context@.code),
        decreases file.funs@.len() - i,
    {
        let fun = &file.funs[i];
        let ghost before = context@;
        proof {
            lemma_covered_emitted(before, seq![AsmNode::DeclFun(fun.name)]);
            assert(emitted_all(before, seq![AsmNode::DeclFun(fun.name)]).code =~= emitted(
                before,
                AsmNode::DeclFun(fun.name),
            ).code);
        }
        context.emit(AsmNode::DeclFun(fun.name));
        match lin(&mut context, &fun.body, fun.entry) {
            Ok(()) => {},
            Err(error) => {
                proof {
                    assert(file@[i as int].body == fun.body@);
                    assert(funs_model(file@, before, i as nat) == Err::<
                        LinState,
                        LinearisingError,
                    >(error));
                    assert(text_model(file@) == Err::<Seq<AsmNode>, LinearisingError>(error));
                }
                return Err(error);
            },
        }
        i = i + 1;
    }
    let kept_code = keep(&context.code.nodes, &context.labels);
    let mut nodes: Vec<AsmNode> = Vec::new();
    nodes.push(AsmNode::Globl(Ident::main()));
    let mut k: usize = 0;
    while k < kept_code.len()
        invariant
            k <= kept_code@.len(),
            nodes@ == seq![AsmNode::Globl(Ident { id: crate::common::MAIN })] + kept_code@.take(
                k as int,
            ),
        decreases kept_code@.len() - k,
    {
        nodes.push(kept_code[k]);
        assert(kept_code@.take(k + 1) =~= kept_code@.take(k as int).push(kept_code@[k as int]));
        assert(nodes@ =~= seq![AsmNode::Globl(Ident { id: crate::common::MAIN })]
            + kept_code@.take(k + 1));
        k = k + 1;
    }
    proof {
        assert(kept_code@.take(kept_code@.len() as int) =~= kept_code@);
        let code = context@.code;
        let labels = context@.labels;
        lemma_keep(code, labels);
        let kept = keep_model(code, labels);
        assert forall|a: int| 0 <= a < nodes@.len() && #[trigger] nodes@[a] is Label implies exists|
            j: int,
        |
            0 <= j < nodes@.len() && (#[trigger] nodes@[j]).jumps_to(nodes@[a]->Label_0) by {
            let l = nodes@[a]->Label_0;
            assert(a > 0);
            assert(kept[a - 1] == AsmNode::Label(l));
            assert(labels.contains(l));
            let w = choose|w: int| 0 <= w < code.len() && (#[trigger] code[w]).jumps_to(l);
            assert(!(code[w] is Label));
            assert(kept.contains(code[w]));
            let j = choose|j: int| 0 <= j < kept.len() && kept[j] == code[w];
            assert(nodes@[j + 1] == code[w]);
        }
        assert forall|a: int| 0 <= a < nodes@.len() implies !(
        #[trigger] nodes@[a]).memory_to_memory() by {
            if a > 0 {
                assert(nodes@[a] == kept[a - 1]);
                assert(code.contains(kept[a - 1]));
                let w = choose|w: int| 0 <= w < code.len() && code[w] == kept[a - 1];
                assert(!code[w].memory_to_memory());
            }
        }
    }
    Ok(Asm::new(nodes))
}

/// The data of the program: nothing.
pub fn data(_file: &File) -> (r: LinearisingResult<Asm>)
    ensures
        r is Ok,
        r->Ok_0@ == Seq::<AsmNode>::empty(),
{
    Ok(Asm::new(Vec::new()))
}

/// The program of `file`: its text, then its data, which is empty.
pub fn linearise(file: &File) -> (r: LinearisingResult<Program>)
    ensures
        match text_model(file@) {
            Ok(nodes) => r is Ok && r->Ok_0.sections@.len() == 2 && r->Ok_0.sections@[0] is Text
                && r->Ok_0.sections@[0]->Text_0@ == nodes && r->Ok_0.sections@[1] is Data
                && r->Ok_0.sections@[1]->Data_0@ == Seq::<AsmNode>::empty(),
            Err(error) => r is Err && r->Err_0 == error,
        },
        r is Ok ==> targeted(r->Ok_0.sections@[0]->Text_0@) && clean(
            r->Ok_0.sections@[0]->Text_0@,
        ),
{
    let text_asm = text(file)?;
    let data_asm = data(file)?;
    let mut sections: Vec<Section> = Vec::new();
    sections.push(Section::Text(text_asm));
    sections.push(Section::Data(data_asm));
    Ok(Program::new(sections))
}

} // verus!


use crate::rtl::model::{
    bind_all_model, emit, fill, rtl_args_model, rtl_block_model, rtl_expr_model, rtl_fun_model,
    rtl_stmt_model, take_label, take_register, binop_model, RtlState,
};
use crate::rtl::structure::label::Label;
use crate::rtl::structure::register::PseudoRegister;
use crate::rtl::structure::{BlockIdent, Fresh, InstrView, Mbinop, MuBranch, Munop, Supply};
use crate::typer::structure::{Binop, Block, Expr, ExprNode, Fun, Stmt, Unop};
use vstd::prelude::*;

verus! {

/// From every instruction of `graph` control goes only to labels that have
/// an instruction or are in `allowed`.
pub open spec fn closed(graph: Map<Label, InstrView>, allowed: Set<Label>) -> bool {
    forall|l: Label, k: int|
        graph.contains_key(l) && 0 <= k < graph[l].successors().len() ==> graph.contains_key(
            #[trigger] graph[l].successors()[k],
        ) || allowed.contains(graph[l].successors()[k])
}

/// `label` has an instruction in `graph` or is in `allowed`.
pub open spec fn known(graph: Map<Label, InstrView>, allowed: Set<Label>, label: Label) -> bool {
    graph.contains_key(label) || allowed.contains(label)
}

/// From `before` to `after` no label loses its instruction, and the graph
/// stays closed if it was.
#[verifier::opaque]
pub open spec fn step(
    before: Map<Label, InstrView>,
    after: Map<Label, InstrView>,
    allowed: Set<Label>,
) -> bool {
    &&& forall|l: Label| #[trigger] before.contains_key(l) ==> after.contains_key(l)
    &&& closed(before, allowed) ==> closed(after, allowed)
}

/// Nothing changed is a step.
pub proof fn lemma_step_none(graph: Map<Label, InstrView>, allowed: Set<Label>)
    ensures
        step(graph, graph, allowed),
{
    reveal(step);
}

/// Two steps make a step.
pub proof fn lemma_step_both(
    a: Map<Label, InstrView>,
    b: Map<Label, InstrView>,
    c: Map<Label, InstrView>,
    allowed: Set<Label>,
)
    requires
        step(a, b, allowed),
        step(b, c, allowed),
    ensures
        step(a, c, allowed),
{
    reveal(step);
}

/// What is known stays known over a step.
pub proof fn lemma_known(
    a: Map<Label, InstrView>,
    b: Map<Label, InstrView>,
    allowed: Set<Label>,
    label: Label,
)
    requires
        step(a, b, allowed),
        known(a, allowed, label),
    ensures
        known(b, allowed, label),
{
    reveal(step);
}

/// What has an instruction keeps one over a step.
pub proof fn lemma_has(
    a: Map<Label, InstrView>,
    b: Map<Label, InstrView>,
    allowed: Set<Label>,
    label: Label,
)
    requires
        step(a, b, allowed),
        a.contains_key(label),
    ensures
        b.contains_key(label),
{
    reveal(step);
}

/// Putting an instruction whose targets are known at a label keeps the
/// graph closed.
pub proof fn lemma_fill(
    graph: Map<Label, InstrView>,
    at: Label,
    instr: InstrView,
    allowed: Set<Label>,
)
    requires
        forall|k: int|
            0 <= k < instr.successors().len() ==> known(
                graph,
                allowed,
                #[trigger] instr.successors()[k],
            ) || instr.successors()[k] == at,
    ensures
        step(graph, graph.insert(at, instr), allowed),
        graph.insert(at, instr).contains_key(at),
{
    reveal(step);
    let after = graph.insert(at, instr);
    if closed(graph, allowed) {
        assert forall|l: Label, k: int|
            after.contains_key(l) && 0 <= k < after[l].successors().len() implies after.contains_key(
            #[trigger] after[l].successors()[k],
        ) || allowed.contains(after[l].successors()[k]) by {
            if l == at {
                assert(known(graph, allowed, instr.successors()[k]) || instr.successors()[k]
                    == at);
            } else {
                assert(graph.contains_key(graph[l].successors()[k]) || allowed.contains(
                    graph[l].successors()[k],
                ));
            }
        }
    }
}

/// Putting an instruction that leads on to the known label `next` at a
/// fresh label is a step, after which that label has an instruction.
pub proof fn lemma_emit_1(state: RtlState, instr: InstrView, next: Label, allowed: Set<Label>)
    requires
        instr.successors() == seq![next],
        known(state.instrs, allowed, next),
    ensures
        match emit(state, instr) {
            Ok((after, label)) => step(state.instrs, after.instrs, allowed)
                && after.instrs.contains_key(label),
            Err(_) => true,
        },
{
    match Label::issue(state.supply) {
        Some((label, _)) => {
            lemma_fill(state.instrs, label, instr, allowed);
        },
        None => {},
    }
}

/// Putting an instruction that leads on to the known labels `first` and
/// `second` at a fresh label is a step, after which that label has an
/// instruction.
pub proof fn lemma_emit_2(
    state: RtlState,
    instr: InstrView,
    first: Label,
    second: Label,
    allowed: Set<Label>,
)
    requires
        instr.successors() == seq![first, second],
        known(state.instrs, allowed, first),
        known(state.instrs, allowed, second),
    ensures
        match emit(state, instr) {
            Ok((after, label)) => step(state.instrs, after.instrs, allowed)
                && after.instrs.contains_key(label),
            Err(_) => true,
        },
{
    match Label::issue(state.supply) {
        Some((label, _)) => {
            lemma_fill(state.instrs, label, instr, allowed);
        },
        None => {},
    }
}

/// A step that allows one label more, and gives that label an instruction,
/// is a step without it.
pub proof fn lemma_settle(
    before: Map<Label, InstrView>,
    after: Map<Label, InstrView>,
    allowed: Set<Label>,
    label: Label,
)
    requires
        step(before, after, allowed.insert(label)),
        after.contains_key(label),
    ensures
        step(before, after, allowed),
{
    reveal(step);
    if closed(before, allowed) {
        assert forall|l: Label, k: int|
            before.contains_key(l) && 0 <= k < before[l].successors().len() implies before.contains_key(
            #[trigger] before[l].successors()[k],
        ) || allowed.insert(label).contains(before[l].successors()[k]) by {
            assert(before.contains_key(before[l].successors()[k]) || allowed.contains(
                before[l].successors()[k],
            ));
        }
        assert(closed(after, allowed.insert(label)));
        assert forall|l: Label, k: int|
            after.contains_key(l) && 0 <= k < after[l].successors().len() implies after.contains_key(
            #[trigger] after[l].successors()[k],
        ) || allowed.contains(after[l].successors()[k]) by {
            assert(after.contains_key(after[l].successors()[k]) || allowed.insert(
                label,
            ).contains(after[l].successors()[k]));
        }
    }
}

/// Lowering the first `n` statements of a block is a step, and the label
/// that comes back is known.
pub proof fn lemma_rtl_block(
    vars: Seq<(BlockIdent, PseudoRegister)>,
    state: RtlState,
    retr: PseudoRegister,
    retl: Label,
    destl: Label,
    block: Block,
    n: nat,
    allowed: Set<Label>,
)
    requires
        known(state.instrs, allowed, destl),
        known(state.instrs, allowed, retl),
    ensures
        match rtl_block_model(vars, state, retr, retl, destl, block, n) {
            Ok((after, label)) => step(state.instrs, after.instrs, allowed) && known(
                after.instrs,
                allowed,
                label,
            ),
            Err(_) => true,
        },
    decreases block, 0nat, n,
{
    if 0 < n <= block.stmts@.len() {
        lemma_rtl_stmt(vars, state, retr, retl, destl, block.stmts@[n - 1], allowed);
        match rtl_stmt_model(vars, state, retr, retl, destl, block.stmts@[n - 1]) {
            Ok((mid, label)) => {
                lemma_known(state.instrs, mid.instrs, allowed, retl);
                lemma_rtl_block(vars, mid, retr, retl, label, block, (n - 1) as nat, allowed);
                match rtl_block_model(vars, mid, retr, retl, label, block, (n - 1) as nat) {
                    Ok((after, _)) => {
                        lemma_step_both(state.instrs, mid.instrs, after.instrs, allowed);
                    },
                    Err(_) => {},
                }
            },
            Err(_) => {},
        }
    } else {
        lemma_step_none(state.instrs, allowed);
    }
}

/// Lowering a statement is a step, and the label that comes back is known.
pub proof fn lemma_rtl_stmt(
    vars: Seq<(BlockIdent, PseudoRegister)>,
    state: RtlState,
    retr: PseudoRegister,
    retl: Label,
    destl: Label,
    stmt: Stmt,
    allowed: Set<Label>,
)
    requires
        known(state.instrs, allowed, destl),
        known(state.instrs, allowed, retl),
    ensures
        match rtl_stmt_model(vars, state, retr, retl, destl, stmt) {
            Ok((after, label)) => step(state.instrs, after.instrs, allowed) && known(
                after.instrs,
                allowed,
                label,
            ),
            Err(_) => true,
        },
    decreases stmt, 0nat, 0nat,
{
    let g = state.instrs;
    match stmt {
        Stmt::SSkip => {
            lemma_step_none(g, allowed);
        },
        Stmt::SExpr(expr) => match take_register(state) {
            Ok((s1, register)) => {
                lemma_rtl_expr(vars, s1, register, destl, expr, allowed);
            },
            Err(_) => {},
        },
        Stmt::SIf(expr, stmt_if, stmt_else) => {
            lemma_rtl_stmt(vars, state, retr, retl, destl, *stmt_else, allowed);
            match rtl_stmt_model(vars, state, retr, retl, destl, *stmt_else) {
                Ok((s1, to_else)) => {
                    lemma_known(g, s1.instrs, allowed, destl);
                    lemma_known(g, s1.instrs, allowed, retl);
                    lemma_rtl_stmt(vars, s1, retr, retl, destl, *stmt_if, allowed);
                    match rtl_stmt_model(vars, s1, retr, retl, destl, *stmt_if) {
                        Ok((s2, to_if)) => {
                            lemma_step_both(g, s1.instrs, s2.instrs, allowed);
                            lemma_known(s1.instrs, s2.instrs, allowed, to_else);
                            match take_register(s2) {
                                Ok((s3, condition)) => {
                                    let branch = InstrView::EMuBranch(
                                        MuBranch::MJnz,
                                        condition,
                                        to_if,
                                        to_else,
                                    );
                                    lemma_emit_2(s3, branch, to_if, to_else, allowed);
                                    match emit(s3, branch) {
                                        Ok((s4, to_jmp)) => {
                                            lemma_step_both(g, s2.instrs, s4.instrs, allowed);
                                            lemma_rtl_expr(
                                                vars,
                                                s4,
                                                condition,
                                                to_jmp,
                                                expr,
                                                allowed,
                                            );
                                            match rtl_expr_model(
                                                vars,
                                                s4,
                                                condition,
                                                to_jmp,
                                                expr,
                                            ) {
                                                Ok((s5, _)) => {
                                                    lemma_step_both(
                                                        g,
                                                        s4.instrs,
                                                        s5.instrs,
                                                        allowed,
                                                    );
                                                },
                                                Err(_) => {},
                                            }
                                        },
                                        Err(_) => {},
                                    }
                                },
                                Err(_) => {},
                            }
                        },
                        Err(_) => {},
                    }
                },
                Err(_) => {},
            }
        },
        Stmt::SWhile(expr, body) => match take_label(state) {
            Ok((s1, goto_label)) => {
                let more = allowed.insert(goto_label);
                lemma_rtl_stmt(vars, s1, retr, retl, goto_label, *body, more);
                match rtl_stmt_model(vars, s1, retr, retl, goto_label, *body) {
                    Ok((s2, body_label)) => match take_register(s2) {
                        Ok((s3, condition)) => {
                            let branch = InstrView::EMuBranch(
                                MuBranch::MJz,
                                condition,
                                destl,
                                body_label,
                            );
                            lemma_known(g, s2.instrs, more, destl);
                            lemma_emit_2(s3, branch, destl, body_label, more);
                            match emit(s3, branch) {
                                Ok((s4, test_label)) => {
                                    lemma_step_both(g, s2.instrs, s4.instrs, more);
                                    lemma_rtl_expr(vars, s4, condition, test_label, expr, more);
                                    match rtl_expr_model(vars, s4, condition, test_label, expr) {
                                        Ok((s5, expr_label)) => {
                                            lemma_step_both(g, s4.instrs, s5.instrs, more);
                                            let goto = InstrView::EGoto(expr_label);
                                            lemma_fill(s5.instrs, goto_label, goto, more);
                                            let s6 = fill(s5, goto_label, goto);
                                            lemma_step_both(g, s5.instrs, s6.instrs, more);
                                            lemma_settle(g, s6.instrs, allowed, goto_label);
                                            lemma_fill(s5.instrs, goto_label, goto, allowed.insert(expr_label));
                                            assert(s6.instrs.contains_key(expr_label)) by {
                                                reveal(step);
                                            }
                                        },
                                        Err(_) => {},
                                    }
                                },
                                Err(_) => {},
                            }
                        },
                        Err(_) => {},
                    },
                    Err(_) => {},
                }
            },
            Err(_) => {},
        },
        Stmt::SBlock(block) => {
            lemma_rtl_block(vars, state, retr, retl, destl, block, block.stmts@.len(), allowed);
        },
        Stmt::SReturn(expr) => {
            lemma_rtl_expr(vars, state, retr, retl, expr, allowed);
        },
    }
}

/// Lowering the first `n` arguments of a call is a step, and the label that
/// comes back is the one lowered towards or has an instruction.
pub proof fn lemma_rtl_args(
    vars: Seq<(BlockIdent, PseudoRegister)>,
    state: RtlState,
    call: Expr,
    n: nat,
    destl: Label,
    registers: Seq<PseudoRegister>,
    allowed: Set<Label>,
)
    requires
        known(state.instrs, allowed, destl),
    ensures
        match rtl_args_model(vars, state, call, n, destl, registers) {
            Ok((after, label, _)) => step(state.instrs, after.instrs, allowed) && (label == destl
                || after.instrs.contains_key(label)),
            Err(_) => true,
        },
    decreases call, 0nat, n,
{
    let g = state.instrs;
    match call.node {
        ExprNode::ECall(_, args) => {
            if 0 < n <= args@.len() {
                match take_register(state) {
                    Ok((s1, register)) => {
                        lemma_rtl_expr(vars, s1, register, destl, args@[n - 1].expr, allowed);
                        match rtl_expr_model(vars, s1, register, destl, args@[n - 1].expr) {
                            Ok((s2, label)) => {
                                lemma_rtl_args(
                                    vars,
                                    s2,
                                    call,
                                    (n - 1) as nat,
                                    label,
                                    registers.insert(0, register),
                                    allowed,
                                );
                                match rtl_args_model(
                                    vars,
                                    s2,
                                    call,
                                    (n - 1) as nat,
                                    label,
                                    registers.insert(0, register),
                                ) {
                                    Ok((s3, _, _)) => {
                                        lemma_step_both(g, s2.instrs, s3.instrs, allowed);
                                        lemma_has(s2.instrs, s3.instrs, allowed, label);
                                    },
                                    Err(_) => {},
                                }
                            },
                            Err(_) => {},
                        }
                    },
                    Err(_) => {},
                }
            } else {
                lemma_step_none(g, allowed);
            }
        },
        _ => {
            lemma_step_none(g, allowed);
        },
    }
}

/// Lowering `expr` towards a known label, after a step from `g`, is a step
/// from `g`.
pub proof fn lemma_rtl_expr_after(
    vars: Seq<(BlockIdent, PseudoRegister)>,
    g: Map<Label, InstrView>,
    state: RtlState,
    destr: PseudoRegister,
    destl: Label,
    expr: Expr,
    allowed: Set<Label>,
)
    requires
        step(g, state.instrs, allowed),
        known(state.instrs, allowed, destl),
    ensures
        match rtl_expr_model(vars, state, destr, destl, expr) {
            Ok((after, label)) => step(g, after.instrs, allowed) && after.instrs.contains_key(
                label,
            ),
            Err(_) => true,
        },
    decreases expr, 1nat, 3nat,
{
    lemma_rtl_expr(vars, state, destr, destl, expr, allowed);
    match rtl_expr_model(vars, state, destr, destl, expr) {
        Ok((after, _)) => {
            lemma_step_both(g, state.instrs, after.instrs, allowed);
        },
        Err(_) => {},
    }
}

/// The case of a field access.
pub proof fn lemma_expr_field(
    vars: Seq<(BlockIdent, PseudoRegister)>,
    state: RtlState,
    destr: PseudoRegister,
    destl: Label,
    expr: Expr,
    allowed: Set<Label>,
)
    requires
        known(state.instrs, allowed, destl),
        expr.node is EAccessField,
    ensures
        match rtl_expr_model(vars, state, destr, destl, expr) {
            Ok((after, label)) => step(state.instrs, after.instrs, allowed)
                && after.instrs.contains_key(label),
            Err(_) => true,
        },
    decreases expr, 1nat, 1nat,
{
    let g = state.instrs;
    match expr.node {
        ExprNode::EAccessField(inner, field) => match take_register(state) {
            Ok((s1, address)) => {
                let instr = InstrView::ELoad(address, (field.index * 8) as i64, destr, destl);
                lemma_emit_1(s1, instr, destl, allowed);
                match emit(s1, instr) {
                    Ok((s2, load)) => {
                        lemma_rtl_expr_after(vars, g, s2, address, load, *inner, allowed);
                    },
                    Err(_) => {},
                }
            },
            Err(_) => {},
        },
        _ => {},
    }
}

/// The case of an assignment to a variable.
pub proof fn lemma_expr_assign_local(
    vars: Seq<(BlockIdent, PseudoRegister)>,
    state: RtlState,
    destr: PseudoRegister,
    destl: Label,
    expr: Expr,
    allowed: Set<Label>,
)
    requires
        known(state.instrs, allowed, destl),
        expr.node is EAssignLocal,
    ensures
        match rtl_expr_model(vars, state, destr, destl, expr) {
            Ok((after, label)) => step(state.instrs, after.instrs, allowed)
                && after.instrs.contains_key(label),
            Err(_) => true,
        },
    decreases expr, 1nat, 1nat,
{
    let g = state.instrs;
    match expr.node {
        ExprNode::EAssignLocal(var, inner) => match crate::rtl::structure::graph::lookup(
            vars,
            var,
        ) {
            Some(register) => {
                let instr = InstrView::EMBinop(Mbinop::MMov, register, destr, destl);
                lemma_emit_1(state, instr, destl, allowed);
                match emit(state, instr) {
                    Ok((s1, mov)) => {
                        lemma_rtl_expr_after(vars, g, s1, register, mov, *inner, allowed);
                    },
                    Err(_) => {},
                }
            },
            None => {},
        },
        _ => {},
    }
}

/// The case of an assignment to a field.
pub proof fn lemma_expr_assign_field(
    vars: Seq<(BlockIdent, PseudoRegister)>,
    state: RtlState,
    destr: PseudoRegister,
    destl: Label,
    expr: Expr,
    allowed: Set<Label>,
)
    requires
        known(state.instrs, allowed, destl),
        expr.node is EAssignField,
    ensures
        match rtl_expr_model(vars, state, destr, destl, expr) {
            Ok((after, label)) => step(state.instrs, after.instrs, allowed)
                && after.instrs.contains_key(label),
            Err(_) => true,
        },
    decreases expr, 1nat, 1nat,
{
    let g = state.instrs;
    match expr.node {
        ExprNode::EAssignField(inner, field, value) => match take_register(state) {
            Ok((s1, address)) => {
                let instr = InstrView::EStore(destr, address, (field.index * 8) as i64, destl);
                lemma_emit_1(s1, instr, destl, allowed);
                match emit(s1, instr) {
                    Ok((s2, store)) => {
                        lemma_rtl_expr_after(vars, g, s2, address, store, *inner, allowed);
                        match rtl_expr_model(vars, s2, address, store, *inner) {
                            Ok((s3, address_label)) => {
                                lemma_rtl_expr_after(
                                    vars,
                                    g,
                                    s3,
                                    destr,
                                    address_label,
                                    *value,
                                    allowed,
                                );
                            },
                            Err(_) => {},
                        }
                    },
                    Err(_) => {},
                }
            },
            Err(_) => {},
        },
        _ => {},
    }
}

/// The case of a unary operation.
pub proof fn lemma_expr_unop(
    vars: Seq<(BlockIdent, PseudoRegister)>,
    state: RtlState,
    destr: PseudoRegister,
    destl: Label,
    expr: Expr,
    allowed: Set<Label>,
)
    requires
        known(state.instrs, allowed, destl),
        expr.node is EUnop,
    ensures
        match rtl_expr_model(vars, state, destr, destl, expr) {
            Ok((after, label)) => step(state.instrs, after.instrs, allowed)
                && after.instrs.contains_key(label),
            Err(_) => true,
        },
    decreases expr, 1nat, 1nat,
{
    let g = state.instrs;
    match expr.node {
        ExprNode::EUnop(Unop::UNot, inner) => {
            let instr = InstrView::EMUnop(Munop::Msetei(0), destr, destl);
            lemma_emit_1(state, instr, destl, allowed);
            match emit(state, instr) {
                Ok((s1, test)) => {
                    lemma_rtl_expr_after(vars, g, s1, destr, test, *inner, allowed);
                },
                Err(_) => {},
            }
        },
        ExprNode::EUnop(Unop::UMinus, inner) => match take_register(state) {
            Ok((s1, operand)) => {
                let instr = InstrView::EMBinop(Mbinop::MSub, operand, destr, destl);
                lemma_emit_1(s1, instr, destl, allowed);
                match emit(s1, instr) {
                    Ok((s2, sub)) => {
                        let zero_instr = InstrView::EConst(0, destr, sub);
                        lemma_emit_1(s2, zero_instr, sub, allowed);
                        match emit(s2, zero_instr) {
                            Ok((s3, zero)) => {
                                lemma_step_both(g, s2.instrs, s3.instrs, allowed);
                                lemma_rtl_expr_after(vars, g, s3, operand, zero, *inner, allowed);
                            },
                            Err(_) => {},
                        }
                    },
                    Err(_) => {},
                }
            },
            Err(_) => {},
        },
        _ => {},
    }
}

/// The case of an arithmetic operation or a comparison.
pub proof fn lemma_expr_arith(
    vars: Seq<(BlockIdent, PseudoRegister)>,
    state: RtlState,
    destr: PseudoRegister,
    destl: Label,
    expr: Expr,
    allowed: Set<Label>,
)
    requires
        known(state.instrs, allowed, destl),
        expr.node is EBinop && binop_model(expr.node->EBinop_0) is Some,
    ensures
        match rtl_expr_model(vars, state, destr, destl, expr) {
            Ok((after, label)) => step(state.instrs, after.instrs, allowed)
                && after.instrs.contains_key(label),
            Err(_) => true,
        },
    decreases expr, 1nat, 1nat,
{
    let g = state.instrs;
    match expr.node {
        ExprNode::EBinop(op, expr_1, expr_2) => match binop_model(op) {
            Some(rtl_op) => match take_register(state) {
                Ok((s1, operand)) => {
                    let instr = InstrView::EMBinop(rtl_op, operand, destr, destl);
                    lemma_emit_1(s1, instr, destl, allowed);
                    match emit(s1, instr) {
                        Ok((s2, operation)) => {
                            lemma_rtl_expr_after(vars, g, s2, operand, operation, *expr_2, allowed);
                            match rtl_expr_model(vars, s2, operand, operation, *expr_2) {
                                Ok((s3, label_2)) => {
                                    lemma_rtl_expr_after(
                                        vars,
                                        g,
                                        s3,
                                        destr,
                                        label_2,
                                        *expr_1,
                                        allowed,
                                    );
                                },
                                Err(_) => {},
                            }
                        },
                        Err(_) => {},
                    }
                },
                Err(_) => {},
            },
            None => {},
        },
        _ => {},
    }
}

/// The case of a short-circuit operation.
pub proof fn lemma_expr_logic(
    vars: Seq<(BlockIdent, PseudoRegister)>,
    state: RtlState,
    destr: PseudoRegister,
    destl: Label,
    expr: Expr,
    allowed: Set<Label>,
)
    requires
        known(state.instrs, allowed, destl),
        expr.node is EBinop && binop_model(expr.node->EBinop_0) is None,
    ensures
        match rtl_expr_model(vars, state, destr, destl, expr) {
            Ok((after, label)) => step(state.instrs, after.instrs, allowed)
                && after.instrs.contains_key(label),
            Err(_) => true,
        },
    decreases expr, 1nat, 1nat,
{
    let g = state.instrs;
    match expr.node {
        ExprNode::EBinop(op, expr_1, expr_2) => {
            let set = InstrView::EConst(1, destr, destl);
            lemma_emit_1(state, set, destl, allowed);
            match emit(state, set) {
                Ok((s1, set_1)) => {
                    let second = InstrView::EMuBranch(MuBranch::MJz, destr, destl, set_1);
                    lemma_known(g, s1.instrs, allowed, destl);
                    lemma_emit_2(s1, second, destl, set_1, allowed);
                    match emit(s1, second) {
                        Ok((s2, test_2)) => {
                            lemma_step_both(g, s1.instrs, s2.instrs, allowed);
                            lemma_rtl_expr(vars, s2, destr, test_2, *expr_2, allowed);
                            match rtl_expr_model(vars, s2, destr, test_2, *expr_2) {
                                Ok((s3, label_2)) => {
                                    lemma_step_both(g, s2.instrs, s3.instrs, allowed);
                                    lemma_step_both(s1.instrs, s2.instrs, s3.instrs, allowed);
                                    lemma_known(g, s3.instrs, allowed, destl);
                                    lemma_known(s1.instrs, s3.instrs, allowed, set_1);
                                    let first = if op == Binop::BAnd {
                                        InstrView::EMuBranch(MuBranch::MJz, destr, destl, label_2)
                                    } else {
                                        InstrView::EMuBranch(MuBranch::MJnz, destr, set_1, label_2)
                                    };
                                    if op == Binop::BAnd {
                                        lemma_emit_2(s3, first, destl, label_2, allowed);
                                    } else {
                                        lemma_emit_2(s3, first, set_1, label_2, allowed);
                                    }
                                    match emit(s3, first) {
                                        Ok((s4, test_1)) => {
                                            lemma_step_both(g, s3.instrs, s4.instrs, allowed);
                                            lemma_rtl_expr_after(
                                                vars,
                                                g,
                                                s4,
                                                destr,
                                                test_1,
                                                *expr_1,
                                                allowed,
                                            );
                                        },
                                        Err(_) => {},
                                    }
                                },
                                Err(_) => {},
                            }
                        },
                        Err(_) => {},
                    }
                },
                Err(_) => {},
            }
        },
        _ => {},
    }
}

/// The case of a call.
pub proof fn lemma_expr_call(
    vars: Seq<(BlockIdent, PseudoRegister)>,
    state: RtlState,
    destr: PseudoRegister,
    destl: Label,
    expr: Expr,
    allowed: Set<Label>,
)
    requires
        known(state.instrs, allowed, destl),
        expr.node is ECall,
    ensures
        match rtl_expr_model(vars, state, destr, destl, expr) {
            Ok((after, label)) => step(state.instrs, after.instrs, allowed)
                && after.instrs.contains_key(label),
            Err(_) => true,
        },
    decreases expr, 1nat, 1nat,
{
    let g = state.instrs;
    match expr.node {
        ExprNode::ECall(name, args) => match take_label(state) {
            Ok((s1, eval_label)) => {
                let more = allowed.insert(eval_label);
                lemma_rtl_args(vars, s1, expr, args@.len(), eval_label, Seq::empty(), more);
                match rtl_args_model(vars, s1, expr, args@.len(), eval_label, Seq::empty()) {
                    Ok((s2, entry, registers)) => {
                        let call = InstrView::ECall(destr, name, registers, destl);
                        lemma_known(g, s2.instrs, more, destl);
                        lemma_fill(s2.instrs, eval_label, call, more);
                        let s3 = fill(s2, eval_label, call);
                        lemma_step_both(g, s2.instrs, s3.instrs, more);
                        lemma_settle(g, s3.instrs, allowed, eval_label);
                        if entry != eval_label {
                            lemma_has(s2.instrs, s3.instrs, more, entry);
                        }
                    },
                    Err(_) => {},
                }
            },
            Err(_) => {},
        },
        _ => {},
    }
}

/// Lowering an expression is a step, and the label that comes back has an
/// instruction.
pub proof fn lemma_rtl_expr(
    vars: Seq<(BlockIdent, PseudoRegister)>,
    state: RtlState,
    destr: PseudoRegister,
    destl: Label,
    expr: Expr,
    allowed: Set<Label>,
)
    requires
        known(state.instrs, allowed, destl),
    ensures
        match rtl_expr_model(vars, state, destr, destl, expr) {
            Ok((after, label)) => step(state.instrs, after.instrs, allowed)
                && after.instrs.contains_key(label),
            Err(_) => true,
        },
    decreases expr, 1nat, 2nat,
{
    match expr.node {
        ExprNode::EConst(x) => {
            lemma_emit_1(state, InstrView::EConst(x, destr, destl), destl, allowed);
        },
        ExprNode::EAccessLocal(var) => match crate::rtl::structure::graph::lookup(vars, var) {
            Some(register) => {
                lemma_emit_1(
                    state,
                    InstrView::EMBinop(Mbinop::MMov, register, destr, destl),
                    destl,
                    allowed,
                );
            },
            None => {},
        },
        ExprNode::EAccessField(_, _) => {
            lemma_expr_field(vars, state, destr, destl, expr, allowed);
        },
        ExprNode::EAssignLocal(_, _) => {
            lemma_expr_assign_local(vars, state, destr, destl, expr, allowed);
        },
        ExprNode::EAssignField(_, _, _) => {
            lemma_expr_assign_field(vars, state, destr, destl, expr, allowed);
        },
        ExprNode::EUnop(_, _) => {
            lemma_expr_unop(vars, state, destr, destl, expr, allowed);
        },
        ExprNode::EBinop(op, _, _) => {
            if binop_model(op) is Some {
                lemma_expr_arith(vars, state, destr, destl, expr, allowed);
            } else {
                lemma_expr_logic(vars, state, destr, destl, expr, allowed);
            }
        },
        ExprNode::ECall(_, _) => {
            lemma_expr_call(vars, state, destr, destl, expr, allowed);
        },
    }
}

/// From every instruction of a lowered function control goes only to labels
/// that have an instruction or to the exit label, and so it does from the
/// entry.
pub proof fn lemma_rtl_fun_closed(fun: Fun, supply: Supply)
    ensures
        match rtl_fun_model(fun, supply) {
            Ok((lowered, _)) => closed(lowered.graph, set![lowered.exit]) && (
            lowered.graph.contains_key(lowered.entry) || lowered.entry == lowered.exit),
            Err(_) => true,
        },
{
    match PseudoRegister::issue(supply) {
        Some((result, s1)) => match bind_all_model(
            Seq::empty(),
            s1,
            crate::rtl::model::argument_names(fun),
            0,
        ) {
            Ok((arguments, s2)) => match bind_all_model(arguments, s2, fun.locals@, 0) {
                Ok((vars, s3)) => match Label::issue(s3) {
                    Some((exit, s4)) => {
                        let start = RtlState { instrs: Map::empty(), supply: s4 };
                        lemma_rtl_block(
                            vars,
                            start,
                            result,
                            exit,
                            exit,
                            fun.block,
                            fun.block.stmts@.len(),
                            set![exit],
                        );
                        reveal(step);
                    },
                    None => {},
                },
                Err(_) => {},
            },
            Err(_) => {},
        },
        None => {},
    }
}

} // verus!

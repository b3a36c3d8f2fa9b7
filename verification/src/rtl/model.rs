use crate::rtl::error::RtlError;
use crate::rtl::structure::graph::lookup;
use crate::rtl::structure::label::Label;
use crate::rtl::structure::register::PseudoRegister;
use crate::rtl::structure::{
    BlockIdent, Fresh, FunView, InstrView, Mbinop, MuBranch, Munop, Supply,
};
use crate::typer::structure::{Binop, Block, Expr, ExprNode, File, Fun, Stmt, Unop};
use vstd::prelude::*;

verus! {

/// The graph under construction and the counters, as one mathematical value.
pub ghost struct RtlState {
    pub instrs: Map<Label, InstrView>,
    pub supply: Supply,
}

/// The state after a fresh label has been given `instr`, with that label.
pub open spec fn emit(state: RtlState, instr: InstrView) -> Result<(RtlState, Label), RtlError> {
    match Label::issue(state.supply) {
        Some((label, next)) => Ok(
            (RtlState { instrs: state.instrs.insert(label, instr), supply: next }, label),
        ),
        None => Err(RtlError::Exhausted),
    }
}

/// The state after a label has been set aside, with that label.
pub open spec fn take_label(state: RtlState) -> Result<(RtlState, Label), RtlError> {
    match Label::issue(state.supply) {
        Some((label, next)) => Ok((RtlState { instrs: state.instrs, supply: next }, label)),
        None => Err(RtlError::Exhausted),
    }
}

/// The state after a pseudo-register has been drawn, with that register.
pub open spec fn take_register(state: RtlState) -> Result<(RtlState, PseudoRegister), RtlError> {
    match PseudoRegister::issue(state.supply) {
        Some((register, next)) => Ok((RtlState { instrs: state.instrs, supply: next }, register)),
        None => Err(RtlError::Exhausted),
    }
}

/// The state after `instr` has been put at the label `at`.
pub open spec fn fill(state: RtlState, at: Label, instr: InstrView) -> RtlState {
    RtlState { instrs: state.instrs.insert(at, instr), supply: state.supply }
}

pub open spec fn binop_model(op: Binop) -> Option<Mbinop> {
    match op {
        Binop::BAdd => Some(Mbinop::MAdd),
        Binop::BSub => Some(Mbinop::MSub),
        Binop::BMul => Some(Mbinop::MMul),
        Binop::BDiv => Some(Mbinop::MDiv),
        Binop::BEq => Some(Mbinop::MSete),
        Binop::BNeq => Some(Mbinop::MSetne),
        Binop::BLt => Some(Mbinop::Msetl),
        Binop::BGt => Some(Mbinop::Msetg),
        Binop::BGe => Some(Mbinop::Msetge),
        Binop::BLe => Some(Mbinop::Msetle),
        Binop::BAnd => None,
        Binop::BOr => None,
    }
}

/// Lowering of the first `n` statements of `block`, the last of them first,
/// towards `destl`.
pub open spec fn rtl_block_model(
    vars: Seq<(BlockIdent, PseudoRegister)>,
    state: RtlState,
    retr: PseudoRegister,
    retl: Label,
    destl: Label,
    block: Block,
    n: nat,
) -> Result<(RtlState, Label), RtlError>
    decreases block, 0nat, n,
{
    if 0 < n <= block.stmts@.len() {
        match rtl_stmt_model(vars, state, retr, retl, destl, block.stmts@[n - 1]) {
            Ok((state, label)) => rtl_block_model(
                vars,
                state,
                retr,
                retl,
                label,
                block,
                (n - 1) as nat,
            ),
            Err(error) => Err(error),
        }
    } else {
        Ok((state, destl))
    }
}

/// Lowering of one statement towards `destl`; `return` goes to `retl` with
/// its value in `retr`.
pub open spec fn rtl_stmt_model(
    vars: Seq<(BlockIdent, PseudoRegister)>,
    state: RtlState,
    retr: PseudoRegister,
    retl: Label,
    destl: Label,
    stmt: Stmt,
) -> Result<(RtlState, Label), RtlError>
    decreases stmt, 0nat, 0nat,
{
    match stmt {
        Stmt::SSkip => Ok((state, destl)),
        Stmt::SExpr(expr) => match take_register(state) {
            Ok((state, register)) => rtl_expr_model(vars, state, register, destl, expr),
            Err(error) => Err(error),
        },
        Stmt::SIf(expr, stmt_if, stmt_else) => match rtl_stmt_model(
            vars,
            state,
            retr,
            retl,
            destl,
            *stmt_else,
        ) {
            Ok((state, to_else)) => match rtl_stmt_model(
                vars,
                state,
                retr,
                retl,
                destl,
                *stmt_if,
            ) {
                Ok((state, to_if)) => match take_register(state) {
                    Ok((state, condition)) => match emit(
                        state,
                        InstrView::EMuBranch(MuBranch::MJnz, condition, to_if, to_else),
                    ) {
                        Ok((state, to_jmp)) => rtl_expr_model(
                            vars,
                            state,
                            condition,
                            to_jmp,
                            expr,
                        ),
                        Err(error) => Err(error),
                    },
                    Err(error) => Err(error),
                },
                Err(error) => Err(error),
            },
            Err(error) => Err(error),
        },
        Stmt::SWhile(expr, body) => match take_label(state) {
            Ok((state, goto_label)) => match rtl_stmt_model(
                vars,
                state,
                retr,
                retl,
                goto_label,
                *body,
            ) {
                Ok((state, body_label)) => match take_register(state) {
                    Ok((state, condition)) => match emit(
                        state,
                        InstrView::EMuBranch(MuBranch::MJz, condition, destl, body_label),
                    ) {
                        Ok((state, test_label)) => match rtl_expr_model(
                            vars,
                            state,
                            condition,
                            test_label,
                            expr,
                        ) {
                            Ok((state, expr_label)) => Ok(
                                (
                                    fill(state, goto_label, InstrView::EGoto(expr_label)),
                                    expr_label,
                                ),
                            ),
                            Err(error) => Err(error),
                        },
                        Err(error) => Err(error),
                    },
                    Err(error) => Err(error),
                },
                Err(error) => Err(error),
            },
            Err(error) => Err(error),
        },
        Stmt::SBlock(block) => rtl_block_model(
            vars,
            state,
            retr,
            retl,
            destl,
            block,
            block.stmts@.len(),
        ),
        Stmt::SReturn(expr) => rtl_expr_model(vars, state, retr, retl, expr),
    }
}

/// Lowering of the first `n` arguments of the call `call`, the last of them
/// first, each into a register of its own; `registers` holds those of the
/// arguments already lowered.
pub open spec fn rtl_args_model(
    vars: Seq<(BlockIdent, PseudoRegister)>,
    state: RtlState,
    call: Expr,
    n: nat,
    destl: Label,
    registers: Seq<PseudoRegister>,
) -> Result<(RtlState, Label, Seq<PseudoRegister>), RtlError>
    decreases call, 0nat, n,
{
    match call.node {
        ExprNode::ECall(_, args) => if 0 < n <= args@.len() {
            match take_register(state) {
                Ok((state, register)) => match rtl_expr_model(
                    vars,
                    state,
                    register,
                    destl,
                    args@[n - 1].expr,
                ) {
                    Ok((state, label)) => rtl_args_model(
                        vars,
                        state,
                        call,
                        (n - 1) as nat,
                        label,
                        registers.insert(0, register),
                    ),
                    Err(error) => Err(error),
                },
                Err(error) => Err(error),
            }
        } else {
            Ok((state, destl, registers))
        },
        _ => Ok((state, destl, registers)),
    }
}

/// Lowering of one expression: control runs from the label of the result to
/// `destl`, where `destr` holds the value.
pub open spec fn rtl_expr_model(
    vars: Seq<(BlockIdent, PseudoRegister)>,
    state: RtlState,
    destr: PseudoRegister,
    destl: Label,
    expr: Expr,
) -> Result<(RtlState, Label), RtlError>
    decreases expr, 1nat, 0nat,
{
    match expr.node {
        ExprNode::EConst(x) => emit(state, InstrView::EConst(x, destr, destl)),
        ExprNode::EAccessLocal(var) => match lookup(vars, var) {
            Some(register) => emit(state, InstrView::EMBinop(Mbinop::MMov, register, destr, destl)),
            None => Err(RtlError::VarNotFound(var)),
        },
        ExprNode::EAccessField(inner, field) => match take_register(state) {
            Ok((state, address)) => match emit(
                state,
                InstrView::ELoad(address, (field.index * 8) as i64, destr, destl),
            ) {
                Ok((state, load)) => rtl_expr_model(vars, state, address, load, *inner),
                Err(error) => Err(error),
            },
            Err(error) => Err(error),
        },
        ExprNode::EAssignLocal(var, inner) => match lookup(vars, var) {
            Some(register) => match emit(
                state,
                InstrView::EMBinop(Mbinop::MMov, register, destr, destl),
            ) {
                Ok((state, mov)) => rtl_expr_model(vars, state, register, mov, *inner),
                Err(error) => Err(error),
            },
            None => Err(RtlError::VarNotFound(var)),
        },
        ExprNode::EAssignField(inner, field, value) => match take_register(state) {
            Ok((state, address)) => match emit(
                state,
                InstrView::EStore(destr, address, (field.index * 8) as i64, destl),
            ) {
                Ok((state, store)) => match rtl_expr_model(vars, state, address, store, *inner) {
                    Ok((state, address_label)) => rtl_expr_model(
                        vars,
                        state,
                        destr,
                        address_label,
                        *value,
                    ),
                    Err(error) => Err(error),
                },
                Err(error) => Err(error),
            },
            Err(error) => Err(error),
        },
        ExprNode::EUnop(Unop::UNot, inner) => match emit(
            state,
            InstrView::EMUnop(Munop::Msetei(0), destr, destl),
        ) {
            Ok((state, test)) => rtl_expr_model(vars, state, destr, test, *inner),
            Err(error) => Err(error),
        },
        ExprNode::EUnop(Unop::UMinus, inner) => match take_register(state) {
            Ok((state, operand)) => match emit(
                state,
                InstrView::EMBinop(Mbinop::MSub, operand, destr, destl),
            ) {
                Ok((state, sub)) => match emit(state, InstrView::EConst(0, destr, sub)) {
                    Ok((state, zero)) => rtl_expr_model(vars, state, operand, zero, *inner),
                    Err(error) => Err(error),
                },
                Err(error) => Err(error),
            },
            Err(error) => Err(error),
        },
        ExprNode::EBinop(op, expr_1, expr_2) => match binop_model(op) {
            Some(rtl_op) => match take_register(state) {
                Ok((state, operand)) => match emit(
                    state,
                    InstrView::EMBinop(rtl_op, operand, destr, destl),
                ) {
                    Ok((state, operation)) => match rtl_expr_model(
                        vars,
                        state,
                        operand,
                        operation,
                        *expr_2,
                    ) {
                        Ok((state, label_2)) => rtl_expr_model(
                            vars,
                            state,
                            destr,
                            label_2,
                            *expr_1,
                        ),
                        Err(error) => Err(error),
                    },
                    Err(error) => Err(error),
                },
                Err(error) => Err(error),
            },
            None => match emit(state, InstrView::EConst(1, destr, destl)) {
                Ok((state, set_1)) => match emit(
                    state,
                    InstrView::EMuBranch(MuBranch::MJz, destr, destl, set_1),
                ) {
                    Ok((state, test_2)) => match rtl_expr_model(
                        vars,
                        state,
                        destr,
                        test_2,
                        *expr_2,
                    ) {
                        Ok((state, label_2)) => match emit(
                            state,
                            if op == Binop::BAnd {
                                InstrView::EMuBranch(MuBranch::MJz, destr, destl, label_2)
                            } else {
                                InstrView::EMuBranch(MuBranch::MJnz, destr, set_1, label_2)
                            },
                        ) {
                            Ok((state, test_1)) => rtl_expr_model(
                                vars,
                                state,
                                destr,
                                test_1,
                                *expr_1,
                            ),
                            Err(error) => Err(error),
                        },
                        Err(error) => Err(error),
                    },
                    Err(error) => Err(error),
                },
                Err(error) => Err(error),
            },
        },
        ExprNode::ECall(name, args) => match take_label(state) {
            Ok((state, eval_label)) => match rtl_args_model(
                vars,
                state,
                expr,
                args@.len(),
                eval_label,
                Seq::empty(),
            ) {
                Ok((state, entry, registers)) => Ok(
                    (
                        fill(state, eval_label, InstrView::ECall(destr, name, registers, destl)),
                        entry,
                    ),
                ),
                Err(error) => Err(error),
            },
            Err(error) => Err(error),
        },
    }
}

/// The second halves of the pairs of `vars`.
pub open spec fn registers_of(vars: Seq<(BlockIdent, PseudoRegister)>) -> Seq<PseudoRegister> {
    Seq::new(vars.len(), |i: int| vars[i].1)
}

/// The scoped names of the arguments of `fun`.
pub open spec fn argument_names(fun: Fun) -> Seq<BlockIdent> {
    Seq::new(fun.signature.args@.len(), |i: int| fun.signature.args@[i].name)
}

/// `vars` with a fresh register bound to `ident`; `DuplicateBlockIdent` where
/// `ident` is bound already.
pub open spec fn bind_model(
    vars: Seq<(BlockIdent, PseudoRegister)>,
    supply: Supply,
    ident: BlockIdent,
) -> Result<(Seq<(BlockIdent, PseudoRegister)>, Supply), RtlError> {
    match PseudoRegister::issue(supply) {
        Some((register, next)) => if lookup(vars, ident) is Some {
            Err(RtlError::DuplicateBlockIdent(ident))
        } else {
            Ok((vars.push((ident, register)), next))
        },
        None => Err(RtlError::Exhausted),
    }
}

/// `vars` with fresh registers bound to the names from `names[from]` on, in
/// turn.
pub open spec fn bind_all_model(
    vars: Seq<(BlockIdent, PseudoRegister)>,
    supply: Supply,
    names: Seq<BlockIdent>,
    from: nat,
) -> Result<(Seq<(BlockIdent, PseudoRegister)>, Supply), RtlError>
    decreases names.len() - from,
{
    if from < names.len() {
        match bind_model(vars, supply, names[from as int]) {
            Ok((vars, supply)) => bind_all_model(vars, supply, names, from + 1),
            Err(error) => Err(error),
        }
    } else {
        Ok((vars, supply))
    }
}

/// Lowering of one function: a register for the result, one for each
/// argument and each local, an exit label, then the body towards that label.
pub open spec fn rtl_fun_model(fun: Fun, supply: Supply) -> Result<(FunView, Supply), RtlError> {
    match PseudoRegister::issue(supply) {
        Some((result, supply)) => match bind_all_model(
            Seq::empty(),
            supply,
            argument_names(fun),
            0,
        ) {
            Ok((arguments, supply)) => match bind_all_model(
                arguments,
                supply,
                fun.locals@,
                0,
            ) {
                Ok((vars, supply)) => match Label::issue(supply) {
                    Some((exit, supply)) => match rtl_block_model(
                        vars,
                        RtlState { instrs: Map::empty(), supply },
                        result,
                        exit,
                        exit,
                        fun.block,
                        fun.block.stmts@.len(),
                    ) {
                        Ok((state, entry)) => Ok(
                            (
                                FunView {
                                    name: fun.signature.name,
                                    result,
                                    arguments: registers_of(arguments),
                                    locals: vars.skip(arguments.len() as int),
                                    vars,
                                    entry,
                                    exit,
                                    graph: state.instrs,
                                },
                                state.supply,
                            ),
                        ),
                        Err(error) => Err(error),
                    },
                    None => Err(RtlError::Exhausted),
                },
                Err(error) => Err(error),
            },
            Err(error) => Err(error),
        },
        None => Err(RtlError::Exhausted),
    }
}

/// Lowering of the functions of `file` from the one at `from` on, in the
/// order of the file; `done` holds those lowered before.
pub open spec fn rtl_file_model(file: File, supply: Supply, done: Seq<FunView>, from: nat) -> Result<
    (Seq<FunView>, Supply),
    RtlError,
>
    decreases file.funs@.len() - from,
{
    if from < file.funs@.len() {
        match rtl_fun_model(file.funs@[from as int], supply) {
            Ok((fun, supply)) => rtl_file_model(file, supply, done.push(fun), from + 1),
            Err(error) => Err(error),
        }
    } else {
        Ok((done, supply))
    }
}

} // verus!

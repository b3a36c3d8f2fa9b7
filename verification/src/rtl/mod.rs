pub mod error;
pub mod exit;
pub mod interpreter;
pub mod laws;
pub mod model;
pub mod structure;

use crate::rtl::error::RtlError;
use crate::rtl::model::{
    argument_names, bind_all_model, bind_model, registers_of, rtl_file_model, rtl_fun_model, emit,
    rtl_args_model, rtl_block_model, rtl_expr_model, rtl_stmt_model, take_label, RtlState,
};
use crate::rtl::structure::graph::{find_register, Graph};
use crate::rtl::structure::label::Label;
use crate::rtl::structure::register::PseudoRegister;
use crate::rtl::structure::{
    BlockIdent, File, Fresh, Fun, FunView, Instr, Mbinop, MuBranch, Munop, Supply,
};
use crate::typer::structure as typer;
use crate::typer::structure::{Binop, Block, Expr, ExprNode, Stmt, Unop};
use vstd::prelude::*;

verus! {

pub type RtlResult<T> = Result<T, RtlError>;

/// The graph and the counters as one value of the model.
pub open spec fn state_of(graph: Graph, supply: Supply) -> RtlState {
    RtlState { instrs: graph@, supply }
}

/// What a lowering step leaves behind: on success the state and label that
/// the model gives, on failure the model's error.
pub open spec fn agrees(
    model: Result<(RtlState, Label), RtlError>,
    graph: Graph,
    supply: Supply,
    result: RtlResult<Label>,
) -> bool {
    match model {
        Ok((state, label)) => result == Ok::<Label, RtlError>(label) && state_of(graph, supply)
            == state,
        Err(error) => result == Err::<Label, RtlError>(error),
    }
}

/// A fresh pseudo-register, or `Exhausted`.
pub fn fresh_register(supply: &mut Supply) -> (r: RtlResult<PseudoRegister>)
    ensures
        match PseudoRegister::issue(*old(supply)) {
            Some((register, next)) => r == Ok::<PseudoRegister, RtlError>(register)
                && *final(supply) == next,
            None => r == Err::<PseudoRegister, RtlError>(RtlError::Exhausted),
        },
{
    match PseudoRegister::fresh(supply) {
        Some(register) => Ok(register),
        None => Err(RtlError::Exhausted),
    }
}

/// A fresh label that has no instruction yet, or `Exhausted`.
pub fn fresh_label(supply: &mut Supply) -> (r: RtlResult<Label>)
    ensures
        match Label::issue(*old(supply)) {
            Some((label, next)) => r == Ok::<Label, RtlError>(label) && *final(supply) == next,
            None => r == Err::<Label, RtlError>(RtlError::Exhausted),
        },
{
    match Label::fresh(supply) {
        Some(label) => Ok(label),
        None => Err(RtlError::Exhausted),
    }
}

/// Puts `instr` at a fresh label, or fails with `Exhausted`.
pub fn place(graph: &mut Graph, supply: &mut Supply, instr: Instr) -> (r: RtlResult<Label>)
    ensures
        final(graph).vars == old(graph).vars,
        agrees(emit(state_of(*old(graph), *old(supply)), instr@), *final(graph), *final(supply), r),
{
    match graph.insert(supply, instr) {
        Some(label) => Ok(label),
        None => Err(RtlError::Exhausted),
    }
}

/// Lowers every function of `file`, in the order of the file.
pub fn rtl_file(file: &typer::File, supply: &mut Supply) -> (r: RtlResult<File>)
    ensures
        match rtl_file_model(*file, *old(supply), Seq::empty(), 0) {
            Ok((funs, next)) => r is Ok && r->Ok_0@ == funs && *final(supply) == next,
            Err(error) => r is Err && r->Err_0 == error,
        },
{
    let mut funs: Vec<Fun> = Vec::new();
    let mut i: usize = 0;
    assert(Seq::new(funs@.len(), |k: int| funs@[k]@) =~= Seq::<FunView>::empty());
    while i < file.funs.len()
        invariant
            i <= file.funs@.len(),
            rtl_file_model(*file, *old(supply), Seq::empty(), 0) == rtl_file_model(
                *file,
                *supply,
                Seq::new(funs@.len(), |k: int| funs@[k]@),
                i as nat,
            ),
        decreases file.funs@.len() - i,
    {
        let ghost before = Seq::new(funs@.len(), |k: int| funs@[k]@);
        let fun = rtl_fun(&file.funs[i], supply)?;
        funs.push(fun);
        i = i + 1;
        assert(Seq::new(funs@.len(), |k: int| funs@[k]@) =~= before.push(fun@));
    }
    let lowered = File::new(funs);
    assert(lowered@ =~= Seq::new(funs@.len(), |k: int| funs@[k]@));
    Ok(lowered)
}

/// Binds a fresh register to `ident` at the end of `vars`.
pub fn bind(vars: &mut Vec<(BlockIdent, PseudoRegister)>, supply: &mut Supply, ident: BlockIdent) -> (r:
    RtlResult<PseudoRegister>)
    ensures
        match bind_model(old(vars)@, *old(supply), ident) {
            Ok((bound, next)) => r is Ok && final(vars)@ == bound && *final(supply) == next
                && bound.last() == (ident, r->Ok_0),
            Err(error) => r is Err && r->Err_0 == error,
        },
{
    let register = fresh_register(supply)?;
    match find_register(vars, ident) {
        Some(_) => Err(RtlError::DuplicateBlockIdent(ident)),
        None => {
            vars.push((ident, register));
            Ok(register)
        },
    }
}

/// Lowers one function.
pub fn rtl_fun(fun: &typer::Fun, supply: &mut Supply) -> (r: RtlResult<Fun>)
    ensures
        match rtl_fun_model(*fun, *old(supply)) {
            Ok((lowered, next)) => r is Ok && r->Ok_0@ == lowered && *final(supply) == next,
            Err(error) => r is Err && r->Err_0 == error,
        },
{
    let result = fresh_register(supply)?;
    let ghost supply_1 = *supply;
    let mut arguments: Vec<PseudoRegister> = Vec::new();
    let mut vars: Vec<(BlockIdent, PseudoRegister)> = Vec::new();
    let mut i: usize = 0;
    while i < fun.signature.args.len()
        invariant
            i <= fun.signature.args@.len(),
            bind_all_model(Seq::empty(), supply_1, argument_names(*fun), 0) == bind_all_model(
                vars@,
                *supply,
                argument_names(*fun),
                i as nat,
            ),
            arguments@ == registers_of(vars@),
            PseudoRegister::issue(*old(supply)) == Some((result, supply_1)),
        decreases fun.signature.args@.len() - i,
    {
        let register = bind(&mut vars, supply, fun.signature.args[i].name)?;
        arguments.push(register);
        i = i + 1;
        assert(arguments@ =~= registers_of(vars@));
    }
    let ghost bound_arguments = vars@;
    let ghost supply_2 = *supply;
    let mut locals: Vec<(BlockIdent, PseudoRegister)> = Vec::new();
    let mut j: usize = 0;
    assert(locals@ =~= vars@.skip(bound_arguments.len() as int));
    while j < fun.locals.len()
        invariant
            j <= fun.locals@.len(),
            bind_all_model(bound_arguments, supply_2, fun.locals@, 0) == bind_all_model(
                vars@,
                *supply,
                fun.locals@,
                j as nat,
            ),
            bound_arguments.len() <= vars@.len(),
            locals@ == vars@.skip(bound_arguments.len() as int),
            PseudoRegister::issue(*old(supply)) == Some((result, supply_1)),
            bind_all_model(Seq::empty(), supply_1, argument_names(*fun), 0) == Ok::<
                (Seq<(BlockIdent, PseudoRegister)>, Supply),
                RtlError,
            >((bound_arguments, supply_2)),
        decreases fun.locals@.len() - j,
    {
        let local = fun.locals[j];
        let register = bind(&mut vars, supply, local)?;
        locals.push((local, register));
        j = j + 1;
        assert(locals@ =~= vars@.skip(bound_arguments.len() as int));
    }
    let mut graph = Graph::new(vars);
    let exit = fresh_label(supply)?;
    let entry = rtl_block(&mut graph, supply, result, exit, exit, &fun.block)?;
    Ok(Fun::new(fun.signature.name, result, arguments, locals, entry, exit, graph))
}

/// Lowers the statements of `block`, last first, so that control runs from
/// the returned label through the block to `destl`.
pub fn rtl_block(
    graph: &mut Graph,
    supply: &mut Supply,
    retr: PseudoRegister,
    retl: Label,
    destl: Label,
    block: &Block,
) -> (r: RtlResult<Label>)
    ensures
        final(graph).vars == old(graph).vars,
        agrees(
            rtl_block_model(
                old(graph).vars@,
                state_of(*old(graph), *old(supply)),
                retr,
                retl,
                destl,
                *block,
                block.stmts@.len(),
            ),
            *final(graph),
            *final(supply),
            r,
        ),
    decreases block, 1nat,
{
    let mut dlabel = destl;
    let mut i: usize = block.stmts.len();
    while i > 0
        invariant
            i <= block.stmts@.len(),
            graph.vars == old(graph).vars,
            rtl_block_model(
                old(graph).vars@,
                state_of(*old(graph), *old(supply)),
                retr,
                retl,
                destl,
                *block,
                block.stmts@.len(),
            ) == rtl_block_model(
                old(graph).vars@,
                state_of(*graph, *supply),
                retr,
                retl,
                dlabel,
                *block,
                i as nat,
            ),
        decreases i,
    {
        i = i - 1;
        match rtl_stmt(graph, supply, retr, retl, dlabel, &block.stmts[i]) {
            Ok(label) => {
                dlabel = label;
            },
            Err(error) => {
                return Err(error);
            },
        }
    }
    Ok(dlabel)
}

/// Lowers `stmt` so that control runs from the returned label through the
/// statement to `destl`, or to `retl` with the result in `retr` on `return`.
pub fn rtl_stmt(
    graph: &mut Graph,
    supply: &mut Supply,
    retr: PseudoRegister,
    retl: Label,
    destl: Label,
    stmt: &Stmt,
) -> (r: RtlResult<Label>)
    ensures
        final(graph).vars == old(graph).vars,
        agrees(
            rtl_stmt_model(
                old(graph).vars@,
                state_of(*old(graph), *old(supply)),
                retr,
                retl,
                destl,
                *stmt,
            ),
            *final(graph),
            *final(supply),
            r,
        ),
    decreases stmt,
{
    match stmt {
        Stmt::SSkip => Ok(destl),
        Stmt::SExpr(expr) => {
            let register = fresh_register(supply)?;
            rtl_expr(graph, supply, register, destl, expr)
        },
        Stmt::SIf(expr, stmt_if, stmt_else) => {
            let to_else = rtl_stmt(graph, supply, retr, retl, destl, stmt_else)?;
            let to_if = rtl_stmt(graph, supply, retr, retl, destl, stmt_if)?;
            let condition = fresh_register(supply)?;
            let to_jmp = place(
                graph,
                supply,
                Instr::EMuBranch(MuBranch::MJnz, condition, to_if, to_else),
            )?;
            rtl_expr(graph, supply, condition, to_jmp, expr)
        },
        Stmt::SWhile(expr, body) => {
            let goto_label = fresh_label(supply)?;
            let body_label = rtl_stmt(graph, supply, retr, retl, goto_label, body)?;
            let condition = fresh_register(supply)?;
            let test_label = place(
                graph,
                supply,
                Instr::EMuBranch(MuBranch::MJz, condition, destl, body_label),
            )?;
            let expr_label = rtl_expr(graph, supply, condition, test_label, expr)?;
            graph.insert_with_label(goto_label, Instr::EGoto(expr_label));
            Ok(expr_label)
        },
        Stmt::SBlock(block) => rtl_block(graph, supply, retr, retl, destl, block),
        Stmt::SReturn(expr) => rtl_expr(graph, supply, retr, retl, expr),
    }
}

/// The RTL operator of an arithmetic or comparison operator of the source;
/// `None` for the two short-circuit operators.
pub fn binop_of(op: Binop) -> (r: Option<Mbinop>)
    ensures
        r == crate::rtl::model::binop_model(op),
{
    match op {
        Binop::BAdd => Some(Mbinop::MAdd),
        Binop::BSub => Some(Mbinop::MSub),
        Binop::BMul => Some(Mbinop::MMul),
        Binop::BDiv => Some(Mbinop::MDiv),
        Binop::BEq => Some(Mbinop::MSete),
        Binop::BNeq => Some(Mbinop::MSetne),
        Binop::BLt => Some(Mbinop::Msetl),
        Binop::BGt => Some(Mbinop::Msetg),
        Binop::BGe => Some(Mbinop::Msetge),
        Binop::BLe => Some(Mbinop::Msetle),
        Binop::BAnd => None,
        Binop::BOr => None,
    }
}

/// Lowers `expr` so that control runs from the returned label to `destl`,
/// where `destr` holds the value of the expression.
pub fn rtl_expr(
    graph: &mut Graph,
    supply: &mut Supply,
    destr: PseudoRegister,
    destl: Label,
    expr: &Expr,
) -> (r: RtlResult<Label>)
    ensures
        final(graph).vars == old(graph).vars,
        agrees(
            rtl_expr_model(
                old(graph).vars@,
                state_of(*old(graph), *old(supply)),
                destr,
                destl,
                *expr,
            ),
            *final(graph),
            *final(supply),
            r,
        ),
    decreases expr, 1nat,
{
    match &expr.node {
        ExprNode::EConst(x) => place(graph, supply, Instr::EConst(*x, destr, destl)),
        ExprNode::EAccessLocal(var) => {
            match graph.register_of(*var) {
                Some(register) => place(
                    graph,
                    supply,
                    Instr::EMBinop(Mbinop::MMov, register, destr, destl),
                ),
                None => Err(RtlError::VarNotFound(*var)),
            }
        },
        ExprNode::EAccessField(inner, field) => {
            let address = fresh_register(supply)?;
            let load = place(
                graph,
                supply,
                Instr::ELoad(address, field.c_offset(), destr, destl),
            )?;
            rtl_expr(graph, supply, address, load, inner)
        },
        ExprNode::EAssignLocal(var, inner) => {
            match graph.register_of(*var) {
                Some(register) => {
                    let mov = place(
                        graph,
                        supply,
                        Instr::EMBinop(Mbinop::MMov, register, destr, destl),
                    )?;
                    rtl_expr(graph, supply, register, mov, inner)
                },
                None => Err(RtlError::VarNotFound(*var)),
            }
        },
        ExprNode::EAssignField(inner, field, value) => {
            let address = fresh_register(supply)?;
            let store = place(
                graph,
                supply,
                Instr::EStore(destr, address, field.c_offset(), destl),
            )?;
            let address_label = rtl_expr(graph, supply, address, store, inner)?;
            rtl_expr(graph, supply, destr, address_label, value)
        },
        ExprNode::EUnop(Unop::UNot, inner) => {
            let test = place(graph, supply, Instr::EMUnop(Munop::Msetei(0), destr, destl))?;
            rtl_expr(graph, supply, destr, test, inner)
        },
        ExprNode::EUnop(Unop::UMinus, inner) => {
            let operand = fresh_register(supply)?;
            let sub = place(graph, supply, Instr::EMBinop(Mbinop::MSub, operand, destr, destl))?;
            let zero = place(graph, supply, Instr::EConst(0, destr, sub))?;
            rtl_expr(graph, supply, operand, zero, inner)
        },
        ExprNode::EBinop(Binop::BAnd, expr_1, expr_2) => {
            let set_1 = place(graph, supply, Instr::EConst(1, destr, destl))?;
            let test_2 = place(
                graph,
                supply,
                Instr::EMuBranch(MuBranch::MJz, destr, destl, set_1),
            )?;
            let label_2 = rtl_expr(graph, supply, destr, test_2, expr_2)?;
            let test_1 = place(
                graph,
                supply,
                Instr::EMuBranch(MuBranch::MJz, destr, destl, label_2),
            )?;
            rtl_expr(graph, supply, destr, test_1, expr_1)
        },
        ExprNode::EBinop(Binop::BOr, expr_1, expr_2) => {
            let set_1 = place(graph, supply, Instr::EConst(1, destr, destl))?;
            let test_2 = place(
                graph,
                supply,
                Instr::EMuBranch(MuBranch::MJz, destr, destl, set_1),
            )?;
            let label_2 = rtl_expr(graph, supply, destr, test_2, expr_2)?;
            let test_1 = place(
                graph,
                supply,
                Instr::EMuBranch(MuBranch::MJnz, destr, set_1, label_2),
            )?;
            rtl_expr(graph, supply, destr, test_1, expr_1)
        },
        ExprNode::EBinop(op, expr_1, expr_2) => {
            match binop_of(*op) {
                Some(rtl_op) => {
                    let operand = fresh_register(supply)?;
                    let operation = place(
                        graph,
                        supply,
                        Instr::EMBinop(rtl_op, operand, destr, destl),
                    )?;
                    let label_2 = rtl_expr(graph, supply, operand, operation, expr_2)?;
                    rtl_expr(graph, supply, destr, label_2, expr_1)
                },
                None => {
                    proof {
                        assert(false);
                    }
                    Err(RtlError::Exhausted)
                },
            }
        },
        ExprNode::ECall(name, args) => {
            let eval_label = fresh_label(supply)?;
            let ghost start = state_of(*graph, *supply);
            let mut arg_label = eval_label;
            let mut registers: Vec<PseudoRegister> = Vec::new();
            let mut i: usize = args.len();
            while i > 0
                invariant
                    i <= args@.len(),
                    expr.node == ExprNode::ECall(*name, *args),
                    graph.vars == old(graph).vars,
                    take_label(state_of(*old(graph), *old(supply))) == Ok::<
                        (RtlState, Label),
                        RtlError,
                    >((start, eval_label)),
                    rtl_args_model(
                        old(graph).vars@,
                        start,
                        *expr,
                        args@.len(),
                        eval_label,
                        Seq::empty(),
                    ) == rtl_args_model(
                        old(graph).vars@,
                        state_of(*graph, *supply),
                        *expr,
                        i as nat,
                        arg_label,
                        registers@,
                    ),
                decreases i,
            {
                i = i - 1;
                let register = fresh_register(supply)?;
                registers.insert(0, register);
                arg_label = rtl_expr(graph, supply, register, arg_label, &args[i].expr)?;
            }
            graph.insert_with_label(eval_label, Instr::ECall(destr, *name, registers, destl));
            Ok(arg_label)
        },
    }
}

} // verus!

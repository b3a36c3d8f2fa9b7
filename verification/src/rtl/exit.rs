use crate::rtl::model::{
    binop_model, emit, fill, rtl_args_model, rtl_block_model, rtl_expr_model, rtl_fun_model,
    rtl_stmt_model, take_label, take_register, RtlState,
};
use crate::rtl::structure::graph::lookup;
use crate::rtl::structure::label::Label;
use crate::rtl::structure::register::PseudoRegister;
use crate::rtl::structure::{BlockIdent, Fresh, InstrView, Mbinop, MuBranch, Munop, Supply};
use crate::typer::structure::{Binop, Block, Expr, ExprNode, Fun, Stmt, Unop};
use vstd::prelude::*;

verus! {

/// Every instruction of `state` stands at a label whose ordinal is `floor`
/// or more, and so will those to come.
pub open spec fn above(state: RtlState, floor: u32) -> bool {
    &&& floor <= state.supply.labels
    &&& forall|l: Label| #[trigger] state.instrs.contains_key(l) ==> floor <= l.index
}

/// Putting an instruction at a fresh label, drawing a label or a register,
/// and putting an instruction at a label that was drawn keep the
/// instructions above the floor.
pub proof fn lemma_above(state: RtlState, floor: u32, instr: InstrView)
    requires
        above(state, floor),
    ensures
        match emit(state, instr) {
            Ok((after, label)) => above(after, floor) && floor <= label.index,
            Err(_) => true,
        },
        match take_label(state) {
            Ok((after, label)) => above(after, floor) && floor <= label.index,
            Err(_) => true,
        },
        match take_register(state) {
            Ok((after, _)) => above(after, floor),
            Err(_) => true,
        },
        forall|at: Label| floor <= at.index ==> above(#[trigger] fill(state, at, instr), floor),
{
    match emit(state, instr) {
        Ok((after, label)) => {
            assert forall|l: Label| #[trigger] after.instrs.contains_key(l) implies floor
                <= l.index by {
                if l != label {
                    assert(state.instrs.contains_key(l));
                }
            }
        },
        Err(_) => {},
    }
    assert forall|at: Label| floor <= at.index implies above(
        #[trigger] fill(state, at, instr),
        floor,
    ) by {
        let after = fill(state, at, instr);
        assert forall|l: Label| #[trigger] after.instrs.contains_key(l) implies floor
            <= l.index by {
            if l != at {
                assert(state.instrs.contains_key(l));
            }
        }
    }
}

/// Lowering statements keeps the instructions above the floor.
pub proof fn lemma_block_above(
    vars: Seq<(BlockIdent, PseudoRegister)>,
    state: RtlState,
    retr: PseudoRegister,
    retl: Label,
    destl: Label,
    block: Block,
    n: nat,
    floor: u32,
)
    requires
        above(state, floor),
    ensures
        match rtl_block_model(vars, state, retr, retl, destl, block, n) {
            Ok((after, _)) => above(after, floor),
            Err(_) => true,
        },
    decreases block, 0nat, n,
{
    if 0 < n <= block.stmts@.len() {
        lemma_stmt_above(vars, state, retr, retl, destl, block.stmts@[n - 1], floor);
        match rtl_stmt_model(vars, state, retr, retl, destl, block.stmts@[n - 1]) {
            Ok((next, label)) => {
                lemma_block_above(vars, next, retr, retl, label, block, (n - 1) as nat, floor);
            },
            Err(_) => {},
        }
    }
}

/// Lowering a statement keeps the instructions above the floor.
pub proof fn lemma_stmt_above(
    vars: Seq<(BlockIdent, PseudoRegister)>,
    state: RtlState,
    retr: PseudoRegister,
    retl: Label,
    destl: Label,
    stmt: Stmt,
    floor: u32,
)
    requires
        above(state, floor),
    ensures
        match rtl_stmt_model(vars, state, retr, retl, destl, stmt) {
            Ok((after, _)) => above(after, floor),
            Err(_) => true,
        },
    decreases stmt, 0nat, 0nat,
{
    let goto = InstrView::EGoto(destl);
    lemma_above(state, floor, goto);
    match stmt {
        Stmt::SSkip => {},
        Stmt::SExpr(expr) => match take_register(state) {
            Ok((s1, register)) => {
                lemma_expr_above(vars, s1, register, destl, expr, floor);
            },
            Err(_) => {},
        },
        Stmt::SIf(expr, stmt_if, stmt_else) => {
            lemma_stmt_above(vars, state, retr, retl, destl, *stmt_else, floor);
            match rtl_stmt_model(vars, state, retr, retl, destl, *stmt_else) {
                Ok((s1, to_else)) => {
                    lemma_stmt_above(vars, s1, retr, retl, destl, *stmt_if, floor);
                    match rtl_stmt_model(vars, s1, retr, retl, destl, *stmt_if) {
                        Ok((s2, to_if)) => {
                            lemma_above(s2, floor, goto);
                            match take_register(s2) {
                                Ok((s3, condition)) => {
                                    let branch = InstrView::EMuBranch(
                                        MuBranch::MJnz,
                                        condition,
                                        to_if,
                                        to_else,
                                    );
                                    lemma_above(s3, floor, branch);
                                    match emit(s3, branch) {
                                        Ok((s4, to_jmp)) => {
                                            lemma_expr_above(
                                                vars,
                                                s4,
                                                condition,
                                                to_jmp,
                                                expr,
                                                floor,
                                            );
                                        },
                                        Err(_) => {},
                                    }
                                },
                                Err(_) => {},
                            }
                        },
                        Err(_) => {},
                    }
                },
                Err(_) => {},
            }
        },
        Stmt::SWhile(expr, body) => match take_label(state) {
            Ok((s1, goto_label)) => {
                lemma_stmt_above(vars, s1, retr, retl, goto_label, *body, floor);
                match rtl_stmt_model(vars, s1, retr, retl, goto_label, *body) {
                    Ok((s2, body_label)) => {
                        lemma_above(s2, floor, goto);
                        match take_register(s2) {
                            Ok((s3, condition)) => {
                                let branch = InstrView::EMuBranch(
                                    MuBranch::MJz,
                                    condition,
                                    destl,
                                    body_label,
                                );
                                lemma_above(s3, floor, branch);
                                match emit(s3, branch) {
                                    Ok((s4, test_label)) => {
                                        lemma_expr_above(
                                            vars,
                                            s4,
                                            condition,
                                            test_label,
                                            expr,
                                            floor,
                                        );
                                        match rtl_expr_model(
                                            vars,
                                            s4,
                                            condition,
                                            test_label,
                                            expr,
                                        ) {
                                            Ok((s5, expr_label)) => {
                                                lemma_above(
                                                    s5,
                                                    floor,
                                                    InstrView::EGoto(expr_label),
                                                );
                                            },
                                            Err(_) => {},
                                        }
                                    },
                                    Err(_) => {},
                                }
                            },
                            Err(_) => {},
                        }
                    },
                    Err(_) => {},
                }
            },
            Err(_) => {},
        },
        Stmt::SBlock(block) => {
            lemma_block_above(
                vars,
                state,
                retr,
                retl,
                destl,
                block,
                block.stmts@.len(),
                floor,
            );
        },
        Stmt::SReturn(expr) => {
            lemma_expr_above(vars, state, retr, retl, expr, floor);
        },
    }
}

/// Lowering the arguments of a call keeps the instructions above the
/// floor.
pub proof fn lemma_args_above(
    vars: Seq<(BlockIdent, PseudoRegister)>,
    state: RtlState,
    call: Expr,
    n: nat,
    destl: Label,
    registers: Seq<PseudoRegister>,
    floor: u32,
)
    requires
        above(state, floor),
    ensures
        match rtl_args_model(vars, state, call, n, destl, registers) {
            Ok((after, _, _)) => above(after, floor),
            Err(_) => true,
        },
    decreases call, 0nat, n,
{
    lemma_above(state, floor, InstrView::EGoto(destl));
    match call.node {
        ExprNode::ECall(_, args) => {
            if 0 < n <= args@.len() {
                match take_register(state) {
                    Ok((s1, register)) => {
                        lemma_expr_above(vars, s1, register, destl, args@[n - 1].expr, floor);
                        match rtl_expr_model(vars, s1, register, destl, args@[n - 1].expr) {
                            Ok((s2, label)) => {
                                lemma_args_above(
                                    vars,
                                    s2,
                                    call,
                                    (n - 1) as nat,
                                    label,
                                    registers.insert(0, register),
                                    floor,
                                );
                            },
                            Err(_) => {},
                        }
                    },
                    Err(_) => {},
                }
            }
        },
        _ => {},
    }
}

/// Lowering an expression keeps the instructions above the floor.
pub proof fn lemma_expr_above(
    vars: Seq<(BlockIdent, PseudoRegister)>,
    state: RtlState,
    destr: PseudoRegister,
    destl: Label,
    expr: Expr,
    floor: u32,
)
    requires
        above(state, floor),
    ensures
        match rtl_expr_model(vars, state, destr, destl, expr) {
            Ok((after, _)) => above(after, floor),
            Err(_) => true,
        },
    decreases expr, 1nat, 0nat,
{
    let goto = InstrView::EGoto(destl);
    lemma_above(state, floor, goto);
    match expr.node {
        ExprNode::EConst(x) => {
            lemma_above(state, floor, InstrView::EConst(x, destr, destl));
        },
        ExprNode::EAccessLocal(var) => match lookup(vars, var) {
            Some(register) => {
                lemma_above(state, floor, InstrView::EMBinop(Mbinop::MMov, register, destr, destl));
            },
            None => {},
        },
        ExprNode::EAccessField(inner, field) => match take_register(state) {
            Ok((s1, address)) => {
                let load = InstrView::ELoad(address, (field.index * 8) as i64, destr, destl);
                lemma_above(s1, floor, load);
                match emit(s1, load) {
                    Ok((s2, at)) => {
                        lemma_expr_above(vars, s2, address, at, *inner, floor);
                    },
                    Err(_) => {},
                }
            },
            Err(_) => {},
        },
        ExprNode::EAssignLocal(var, inner) => match lookup(vars, var) {
            Some(register) => {
                let mov = InstrView::EMBinop(Mbinop::MMov, register, destr, destl);
                lemma_above(state, floor, mov);
                match emit(state, mov) {
                    Ok((s1, at)) => {
                        lemma_expr_above(vars, s1, register, at, *inner, floor);
                    },
                    Err(_) => {},
                }
            },
            None => {},
        },
        ExprNode::EAssignField(inner, field, value) => match take_register(state) {
            Ok((s1, address)) => {
                let store = InstrView::EStore(destr, address, (field.index * 8) as i64, destl);
                lemma_above(s1, floor, store);
                match emit(s1, store) {
                    Ok((s2, at)) => {
                        lemma_expr_above(vars, s2, address, at, *inner, floor);
                        match rtl_expr_model(vars, s2, address, at, *inner) {
                            Ok((s3, address_label)) => {
                                lemma_expr_above(vars, s3, destr, address_label, *value, floor);
                            },
                            Err(_) => {},
                        }
                    },
                    Err(_) => {},
                }
            },
            Err(_) => {},
        },
        ExprNode::EUnop(Unop::UNot, inner) => {
            let test = InstrView::EMUnop(Munop::Msetei(0), destr, destl);
            lemma_above(state, floor, test);
            match emit(state, test) {
                Ok((s1, at)) => {
                    lemma_expr_above(vars, s1, destr, at, *inner, floor);
                },
                Err(_) => {},
            }
        },
        ExprNode::EUnop(Unop::UMinus, inner) => match take_register(state) {
            Ok((s1, operand)) => {
                let sub = InstrView::EMBinop(Mbinop::MSub, operand, destr, destl);
                lemma_above(s1, floor, sub);
                match emit(s1, sub) {
                    Ok((s2, at_sub)) => {
                        let zero = InstrView::EConst(0, destr, at_sub);
                        lemma_above(s2, floor, zero);
                        match emit(s2, zero) {
                            Ok((s3, at_zero)) => {
                                lemma_expr_above(vars, s3, operand, at_zero, *inner, floor);
                            },
                            Err(_) => {},
                        }
                    },
                    Err(_) => {},
                }
            },
            Err(_) => {},
        },
        ExprNode::EBinop(op, expr_1, expr_2) => match binop_model(op) {
            Some(rtl_op) => match take_register(state) {
                Ok((s1, operand)) => {
                    let operation = InstrView::EMBinop(rtl_op, operand, destr, destl);
                    lemma_above(s1, floor, operation);
                    match emit(s1, operation) {
                        Ok((s2, at)) => {
                            lemma_expr_above(vars, s2, operand, at, *expr_2, floor);
                            match rtl_expr_model(vars, s2, operand, at, *expr_2) {
                                Ok((s3, label_2)) => {
                                    lemma_expr_above(vars, s3, destr, label_2, *expr_1, floor);
                                },
                                Err(_) => {},
                            }
                        },
                        Err(_) => {},
                    }
                },
                Err(_) => {},
            },
            None => {
                let one = InstrView::EConst(1, destr, destl);
                lemma_above(state, floor, one);
                match emit(state, one) {
                    Ok((s1, set_1)) => {
                        let second = InstrView::EMuBranch(MuBranch::MJz, destr, destl, set_1);
                        lemma_above(s1, floor, second);
                        match emit(s1, second) {
                            Ok((s2, test_2)) => {
                                lemma_expr_above(vars, s2, destr, test_2, *expr_2, floor);
                                match rtl_expr_model(vars, s2, destr, test_2, *expr_2) {
                                    Ok((s3, label_2)) => {
                                        let first = if op == Binop::BAnd {
                                            InstrView::EMuBranch(
                                                MuBranch::MJz,
                                                destr,
                                                destl,
                                                label_2,
                                            )
                                        } else {
                                            InstrView::EMuBranch(
                                                MuBranch::MJnz,
                                                destr,
                                                set_1,
                                                label_2,
                                            )
                                        };
                                        lemma_above(s3, floor, first);
                                        match emit(s3, first) {
                                            Ok((s4, test_1)) => {
                                                lemma_expr_above(
                                                    vars,
                                                    s4,
                                                    destr,
                                                    test_1,
                                                    *expr_1,
                                                    floor,
                                                );
                                            },
                                            Err(_) => {},
                                        }
                                    },
                                    Err(_) => {},
                                }
                            },
                            Err(_) => {},
                        }
                    },
                    Err(_) => {},
                }
            },
        },
        ExprNode::ECall(name, args) => match take_label(state) {
            Ok((s1, eval_label)) => {
                lemma_args_above(vars, s1, expr, args@.len(), eval_label, Seq::empty(), floor);
                match rtl_args_model(vars, s1, expr, args@.len(), eval_label, Seq::empty()) {
                    Ok((s2, _, registers)) => {
                        lemma_above(s2, floor, InstrView::ECall(destr, name, registers, destl));
                    },
                    Err(_) => {},
                }
            },
            Err(_) => {},
        },
    }
}

/// The exit label of a lowered function has no instruction: reaching it is
/// the return.
pub proof fn lemma_rtl_fun_exit(fun: Fun, supply: Supply)
    ensures
        match rtl_fun_model(fun, supply) {
            Ok((lowered, _)) => !lowered.graph.contains_key(lowered.exit),
            Err(_) => true,
        },
{
    match PseudoRegister::issue(supply) {
        Some((result, s1)) => match crate::rtl::model::bind_all_model(
            Seq::empty(),
            s1,
            crate::rtl::model::argument_names(fun),
            0,
        ) {
            Ok((arguments, s2)) => match crate::rtl::model::bind_all_model(
                arguments,
                s2,
                fun.locals@,
                0,
            ) {
                Ok((vars, s3)) => match Label::issue(s3) {
                    Some((exit, s4)) => {
                        let start = RtlState { instrs: Map::empty(), supply: s4 };
                        let floor = s4.labels;
                        assert(above(start, floor));
                        lemma_block_above(
                            vars,
                            start,
                            result,
                            exit,
                            exit,
                            fun.block,
                            fun.block.stmts@.len(),
                            floor,
                        );
                        match rtl_block_model(
                            vars,
                            start,
                            result,
                            exit,
                            exit,
                            fun.block,
                            fun.block.stmts@.len(),
                        ) {
                            Ok((after, _)) => {
                                if after.instrs.contains_key(exit) {
                                    assert(floor <= exit.index);
                                }
                            },
                            Err(_) => {},
                        }
                    },
                    None => {},
                },
                Err(_) => {},
            },
            Err(_) => {},
        },
        None => {},
    }
}

} // verus!

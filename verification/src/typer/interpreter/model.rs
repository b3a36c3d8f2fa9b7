use crate::common::{Ident, Value, MAIN, MALLOC, PUTCHAR};
use crate::rtl::interpreter::model::{char_of, flag};
use crate::typer::context::PUTCHAR_ARGUMENT;
use crate::typer::interpreter::context::bound;
use crate::typer::interpreter::error::TypInterpreterError;
use crate::typer::structure::{ArgExpr, Binop, Block, BlockIdent, Expr, ExprNode, Fun, Stmt, Unop};
use vstd::prelude::*;

verus! {

/// What all functions of a run share: what was written, and the allocated
/// structs; the struct of address `a` is `memory[a - 1]`.
pub ghost struct Machine {
    pub stdout: Seq<char>,
    pub memory: Seq<Seq<(Ident, Value)>>,
}

/// The variables of a function that runs, each with its value.
pub type Vars = Map<BlockIdent, Value>;

/// What an evaluation gives: the machine and the variables after it, a
/// value, and the steps that are left.
pub type Outcome<T> = Result<(Machine, Vars, T, nat), TypInterpreterError>;

/// The value of `ident`; 0 before it is written.
pub open spec fn read(vars: Vars, ident: BlockIdent) -> Value {
    if vars.contains_key(ident) {
        vars[ident]
    } else {
        0
    }
}

/// The place of the first function named `name`, from `from` on.
pub open spec fn fun_at(funs: Seq<Fun>, name: Ident, from: int) -> Option<int>
    decreases funs.len() - from,
{
    if from < 0 || from >= funs.len() {
        None
    } else if funs[from].signature.name == name {
        Some(from)
    } else {
        fun_at(funs, name, from + 1)
    }
}

/// The result of the arithmetic operation or comparison `op` on `first`
/// and `second`; `None` for a division that has none, and for the two
/// short-circuit operators.
pub open spec fn binop_model(op: Binop, first: Value, second: Value) -> Option<Value> {
    match op {
        Binop::BEq => Some(flag(first == second)),
        Binop::BNeq => Some(flag(first != second)),
        Binop::BLt => Some(flag(first < second)),
        Binop::BGt => Some(flag(first > second)),
        Binop::BGe => Some(flag(first >= second)),
        Binop::BLe => Some(flag(first <= second)),
        Binop::BAdd => Some(first.wrapping_add(second)),
        Binop::BSub => Some(first.wrapping_sub(second)),
        Binop::BMul => Some(first.wrapping_mul(second)),
        Binop::BDiv => first.checked_div(second),
        Binop::BAnd => None,
        Binop::BOr => None,
    }
}

/// The evaluation of the arguments of a call from the `i`-th on, each in
/// the variables of the caller; `inner` holds the variables of the callee
/// so far.
pub open spec fn args_model(
    funs: Seq<Fun>,
    machine: Machine,
    vars: Vars,
    args: Seq<ArgExpr>,
    i: nat,
    inner: Vars,
    fuel: nat,
) -> Outcome<Vars>
    decreases fuel, args.len() - i,
{
    if i >= args.len() {
        Ok((machine, vars, inner, fuel))
    } else {
        match expr_model(funs, machine, vars, args[i as int].expr, fuel) {
            Ok((machine, vars, value, left)) => if left <= fuel {
                args_model(
                    funs,
                    machine,
                    vars,
                    args,
                    i + 1,
                    inner.insert(args[i as int].formal.name, value),
                    left,
                )
            } else {
                Err(TypInterpreterError::OutOfFuel)
            },
            Err(error) => Err(error),
        }
    }
}

/// A call of the function named `name` whose variables are `inner`.
/// `putchar` writes the character of its argument and hands it back;
/// `malloc` allocates a struct and hands back its address; another
/// function runs its body, and hands back what it returns, or 0.
pub open spec fn call_model(funs: Seq<Fun>, machine: Machine, name: Ident, inner: Vars, fuel: nat) -> Result<
    (Machine, Value, nat),
    TypInterpreterError,
>
    decreases fuel, 0nat,
{
    if name.id == PUTCHAR {
        let value = read(inner, BlockIdent::Arg(0, Ident { id: PUTCHAR_ARGUMENT }));
        Ok((Machine { stdout: machine.stdout.push(char_of(value)), ..machine }, value, fuel))
    } else if name.id == MALLOC {
        if machine.memory.len() < 0x7fff_ffff_ffff_fff0 {
            Ok(
                (
                    Machine { memory: machine.memory.push(Seq::empty()), ..machine },
                    (machine.memory.len() + 1) as i64,
                    fuel,
                ),
            )
        } else {
            Err(TypInterpreterError::OutOfMemory)
        }
    } else {
        match fun_at(funs, name, 0) {
            Some(index) => if fuel == 0 {
                Err(TypInterpreterError::OutOfFuel)
            } else {
                match block_model(
                    funs,
                    machine,
                    inner,
                    funs[index].block,
                    0,
                    (fuel - 1) as nat,
                ) {
                    Ok((machine, _, result, left)) => Ok(
                        (
                            machine,
                            match result {
                                Some(value) => value,
                                None => 0,
                            },
                            left,
                        ),
                    ),
                    Err(error) => Err(error),
                }
            },
            None => Err(TypInterpreterError::FunctionDoesNotExist(name)),
        }
    }
}

/// The evaluation of `expr` with `fuel` steps left; each expression takes
/// one step.
pub open spec fn expr_model(funs: Seq<Fun>, machine: Machine, vars: Vars, expr: Expr, fuel: nat) -> Outcome<
    Value,
>
    decreases fuel, 0nat,
{
    if fuel == 0 {
        Err(TypInterpreterError::OutOfFuel)
    } else {
        let fuel = (fuel - 1) as nat;
        match expr.node {
            ExprNode::EConst(x) => Ok((machine, vars, x, fuel)),
            ExprNode::EAccessLocal(ident) => Ok((machine, vars, read(vars, ident), fuel)),
            ExprNode::EAccessField(inner, field) => match expr_model(
                funs,
                machine,
                vars,
                *inner,
                fuel,
            ) {
                Ok((machine, vars, address, left)) => if 1 <= address <= machine.memory.len() {
                    Ok((machine, vars, bound(machine.memory[address - 1], field.name), left))
                } else {
                    Err(TypInterpreterError::UnallocatedMemory(address))
                },
                Err(error) => Err(error),
            },
            ExprNode::EAssignLocal(ident, inner) => match expr_model(
                funs,
                machine,
                vars,
                *inner,
                fuel,
            ) {
                Ok((machine, vars, value, left)) => Ok(
                    (machine, vars.insert(ident, value), value, left),
                ),
                Err(error) => Err(error),
            },
            ExprNode::EAssignField(object, field, assigned) => match expr_model(
                funs,
                machine,
                vars,
                *assigned,
                fuel,
            ) {
                Ok((machine, vars, value, left)) => if left <= fuel {
                    match expr_model(funs, machine, vars, *object, left) {
                        Ok((machine, vars, address, left)) => if 1 <= address
                            <= machine.memory.len() {
                            Ok(
                                (
                                    Machine {
                                        memory: machine.memory.update(
                                            address - 1,
                                            seq![(field.name, value)] + machine.memory[address
                                                - 1],
                                        ),
                                        ..machine
                                    },
                                    vars,
                                    value,
                                    left,
                                ),
                            )
                        } else {
                            Err(TypInterpreterError::UnallocatedMemory(address))
                        },
                        Err(error) => Err(error),
                    }
                } else {
                    Err(TypInterpreterError::OutOfFuel)
                },
                Err(error) => Err(error),
            },
            ExprNode::EUnop(op, inner) => match expr_model(funs, machine, vars, *inner, fuel) {
                Ok((machine, vars, value, left)) => Ok(
                    (
                        machine,
                        vars,
                        match op {
                            Unop::UNot => flag(value == 0),
                            Unop::UMinus => 0i64.wrapping_sub(value),
                        },
                        left,
                    ),
                ),
                Err(error) => Err(error),
            },
            ExprNode::EBinop(op, first, second) => match expr_model(
                funs,
                machine,
                vars,
                *first,
                fuel,
            ) {
                Ok((machine, vars, value_1, left)) => if op == Binop::BAnd && value_1 == 0 {
                    Ok((machine, vars, 0, left))
                } else if op == Binop::BOr && value_1 != 0 {
                    Ok((machine, vars, 1, left))
                } else if left <= fuel {
                    match expr_model(funs, machine, vars, *second, left) {
                        Ok((machine, vars, value_2, left)) => if op == Binop::BAnd || op
                            == Binop::BOr {
                            Ok((machine, vars, flag(value_2 != 0), left))
                        } else {
                            match binop_model(op, value_1, value_2) {
                                Some(value) => Ok((machine, vars, value, left)),
                                None => Err(TypInterpreterError::DivisionError),
                            }
                        },
                        Err(error) => Err(error),
                    }
                } else {
                    Err(TypInterpreterError::OutOfFuel)
                },
                Err(error) => Err(error),
            },
            ExprNode::ECall(name, args) => match args_model(
                funs,
                machine,
                vars,
                args@,
                0,
                Map::empty(),
                fuel,
            ) {
                Ok((machine, vars, inner, left)) => if left <= fuel {
                    match call_model(funs, machine, name, inner, left) {
                        Ok((machine, value, left)) => Ok((machine, vars, value, left)),
                        Err(error) => Err(error),
                    }
                } else {
                    Err(TypInterpreterError::OutOfFuel)
                },
                Err(error) => Err(error),
            },
        }
    }
}

/// The run of the statements of `block` from the `i`-th on; it ends with
/// the value of the first `return` that is reached.
pub open spec fn block_model(
    funs: Seq<Fun>,
    machine: Machine,
    vars: Vars,
    block: Block,
    i: nat,
    fuel: nat,
) -> Outcome<Option<Value>>
    decreases fuel, block.stmts@.len() - i,
{
    if i >= block.stmts@.len() {
        Ok((machine, vars, None, fuel))
    } else {
        match stmt_model(funs, machine, vars, block.stmts@[i as int], fuel) {
            Ok((machine, vars, result, left)) => if result is Some {
                Ok((machine, vars, result, left))
            } else if left <= fuel {
                block_model(funs, machine, vars, block, i + 1, left)
            } else {
                Err(TypInterpreterError::OutOfFuel)
            },
            Err(error) => Err(error),
        }
    }
}

/// The run of `stmt` with `fuel` steps left; each statement, and each turn
/// of a loop, takes one step.
pub open spec fn stmt_model(funs: Seq<Fun>, machine: Machine, vars: Vars, stmt: Stmt, fuel: nat) -> Outcome<
    Option<Value>,
>
    decreases fuel, 0nat,
{
    if fuel == 0 {
        Err(TypInterpreterError::OutOfFuel)
    } else {
        let fuel = (fuel - 1) as nat;
        match stmt {
            Stmt::SSkip => Ok((machine, vars, None, fuel)),
            Stmt::SExpr(expr) => match expr_model(funs, machine, vars, expr, fuel) {
                Ok((machine, vars, _, left)) => Ok((machine, vars, None, left)),
                Err(error) => Err(error),
            },
            Stmt::SIf(expr, stmt_if, stmt_else) => match expr_model(
                funs,
                machine,
                vars,
                expr,
                fuel,
            ) {
                Ok((machine, vars, value, left)) => if left <= fuel {
                    if value != 0 {
                        stmt_model(funs, machine, vars, *stmt_if, left)
                    } else {
                        stmt_model(funs, machine, vars, *stmt_else, left)
                    }
                } else {
                    Err(TypInterpreterError::OutOfFuel)
                },
                Err(error) => Err(error),
            },
            Stmt::SWhile(expr, body) => match expr_model(funs, machine, vars, expr, fuel) {
                Ok((machine, vars, value, left)) => if value == 0 {
                    Ok((machine, vars, None, left))
                } else if left <= fuel {
                    match stmt_model(funs, machine, vars, *body, left) {
                        Ok((machine, vars, result, left)) => if result is Some {
                            Ok((machine, vars, result, left))
                        } else if left <= fuel {
                            stmt_model(funs, machine, vars, stmt, left)
                        } else {
                            Err(TypInterpreterError::OutOfFuel)
                        },
                        Err(error) => Err(error),
                    }
                } else {
                    Err(TypInterpreterError::OutOfFuel)
                },
                Err(error) => Err(error),
            },
            Stmt::SBlock(block) => block_model(funs, machine, vars, block, 0, fuel),
            Stmt::SReturn(expr) => match expr_model(funs, machine, vars, expr, fuel) {
                Ok((machine, vars, value, left)) => Ok((machine, vars, Some(value), left)),
                Err(error) => Err(error),
            },
        }
    }
}

/// A run of the program from `main` with `fuel` steps: what it writes.
pub open spec fn file_model(funs: Seq<Fun>, fuel: nat) -> Result<Seq<char>, TypInterpreterError> {
    match call_model(
        funs,
        Machine { stdout: Seq::empty(), memory: Seq::empty() },
        Ident { id: MAIN },
        Map::empty(),
        fuel,
    ) {
        Ok((machine, _, _)) => Ok(machine.stdout),
        Err(error) => Err(error),
    }
}

} // verus!

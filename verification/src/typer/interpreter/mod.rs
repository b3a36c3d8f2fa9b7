pub mod context;
pub mod defaults;
pub mod error;
pub mod model;

use crate::common::{Bool, Ident, Stdout, ToCBool, Value, MALLOC, PUTCHAR};
use crate::typer::context::PUTCHAR_ARGUMENT;
use crate::typer::interpreter::context::{
    lemma_absent, vars_of, InterpreterContext, MemoryStruct, TyperInterpreterFun,
};
use crate::typer::interpreter::defaults::{Malloc, Putchar};
use crate::typer::interpreter::error::TypInterpreterError;
use crate::typer::interpreter::model::{
    args_model, binop_model, block_model, call_model, expr_model, file_model, fun_at, read,
    stmt_model, Machine, Vars,
};
use crate::typer::structure::{Binop, Block, BlockIdent, Expr, ExprNode, File, Stmt, Unop};
use vstd::prelude::*;

verus! {

pub type TyperInterpreterResult<T> = Result<T, TypInterpreterError>;

/// What a function hands back that ends without `return`.
pub const DEFAULT_RETURN_VALUE: Value = 0;

/// The memory and what was written as one value of the model.
pub open spec fn machine_of(memory: Vec<MemoryStruct>, stdout: Stdout) -> Machine {
    Machine { stdout: stdout@, memory: Seq::new(memory@.len(), |i: int| memory@[i].fields@) }
}

/// What an evaluation leaves behind is what the model gives.
pub open spec fn follows<T>(
    model: Result<(Machine, Vars, T, nat), TypInterpreterError>,
    context: InterpreterContext,
    memory: Vec<MemoryStruct>,
    stdout: Stdout,
    result: TyperInterpreterResult<(T, u64)>,
    fuel: u64,
) -> bool {
    match model {
        Ok((machine, vars, value, left)) => result == Ok::<(T, u64), TypInterpreterError>(
            (value, left as u64),
        ) && left <= fuel && machine_of(memory, stdout) == machine && vars_of(context) == vars
            && context is Node,
        Err(error) => result == Err::<(T, u64), TypInterpreterError>(error),
    }
}

/// Reading a variable in a context is reading it in its variables.
pub proof fn lemma_read(context: InterpreterContext, ident: BlockIdent)
    ensures
        context.value(ident) == read(vars_of(context), ident),
{
    if !context.has(ident) {
        lemma_absent(context, ident);
    }
}

/// The result of the arithmetic operation or comparison `op`.
pub fn binop(op: Binop, first: Value, second: Value) -> (r: Option<Value>)
    ensures
        r == binop_model(op, first, second),
{
    match op {
        Binop::BEq => Some((first == second).to_minic_bool()),
        Binop::BNeq => Some((first != second).to_minic_bool()),
        Binop::BLt => Some((first < second).to_minic_bool()),
        Binop::BGt => Some((first > second).to_minic_bool()),
        Binop::BGe => Some((first >= second).to_minic_bool()),
        Binop::BLe => Some((first <= second).to_minic_bool()),
        Binop::BAdd => Some(first.wrapping_add(second)),
        Binop::BSub => Some(first.wrapping_sub(second)),
        Binop::BMul => Some(first.wrapping_mul(second)),
        Binop::BDiv => first.checked_div(second),
        Binop::BAnd => None,
        Binop::BOr => None,
    }
}

/// The place of the first function of `file` named `name`.
pub fn find_fun(file: &File, name: Ident) -> (r: Option<usize>)
    ensures
        match r {
            Some(index) => fun_at(file.funs@, name, 0) == Some(index as int) && index
                < file.funs@.len(),
            None => fun_at(file.funs@, name, 0) is None,
        },
{
    let mut i: usize = 0;
    while i < file.funs.len()
        invariant
            i <= file.funs@.len(),
            fun_at(file.funs@, name, 0) == fun_at(file.funs@, name, i as int),
        decreases file.funs@.len() - i,
    {
        if file.funs[i].signature.name == name {
            return Some(i);
        }
        i = i + 1;
    }
    None
}

/// A call of the function named `name` whose variables are those of
/// `inner`: see `call_model`.
pub fn call(
    file: &File,
    memory: &mut Vec<MemoryStruct>,
    stdout: &mut Stdout,
    name: Ident,
    inner: &mut InterpreterContext,
    fuel: u64,
) -> (r: TyperInterpreterResult<(Value, u64)>)
    requires
        *old(inner) is Node,
    ensures
        match call_model(
            file.funs@,
            machine_of(*old(memory), *old(stdout)),
            name,
            vars_of(*old(inner)),
            fuel as nat,
        ) {
            Ok((machine, value, left)) => r == Ok::<(Value, u64), TypInterpreterError>(
                (value, left as u64),
            ) && left <= fuel && machine_of(*final(memory), *final(stdout)) == machine,
            Err(error) => r == Err::<(Value, u64), TypInterpreterError>(error),
        },
    decreases fuel, 0nat,
{
    if name.id == PUTCHAR {
        proof {
            lemma_read(*inner, BlockIdent::Arg(0, Ident { id: PUTCHAR_ARGUMENT }));
        }
        match Putchar::new().call(inner, memory, stdout) {
            Ok(value) => {
                proof {
                    assert(old(stdout)@ + seq![
                        crate::rtl::interpreter::model::char_of(value),
                    ] =~= old(stdout)@.push(crate::rtl::interpreter::model::char_of(value)));
                    let n = old(memory)@.len() as int;
                    assert forall|i: int| 0 <= i < n implies memory@[i] == old(memory)@[i] by {
                        assert(memory@.take(n)[i] == old(memory)@[i]);
                    }
                    assert(machine_of(*memory, *stdout).memory =~= machine_of(
                        *old(memory),
                        *old(stdout),
                    ).memory);
                }
                Ok((value, fuel))
            },
            Err(error) => Err(error),
        }
    } else if name.id == MALLOC {
        match Malloc::new().call(inner, memory, stdout) {
            Ok(value) => {
                proof {
                    assert(stdout@ =~= old(stdout)@);
                    let n = old(memory)@.len() as int;
                    assert forall|i: int| 0 <= i < n implies memory@[i] == old(memory)@[i] by {
                        assert(memory@.take(n)[i] == old(memory)@[i]);
                    }
                    assert(memory@[n].fields@ =~= Seq::<(Ident, Value)>::empty());
                    assert(machine_of(*memory, *stdout).memory =~= machine_of(
                        *old(memory),
                        *old(stdout),
                    ).memory.push(Seq::empty()));
                }
                Ok((value, fuel))
            },
            Err(error) => Err(error),
        }
    } else {
        match find_fun(file, name) {
            Some(index) => {
                if fuel == 0 {
                    return Err(TypInterpreterError::OutOfFuel);
                }
                let (result, left) = interp_block(
                    inner,
                    file,
                    memory,
                    stdout,
                    &file.funs[index].block,
                    fuel - 1,
                )?;
                let value = match result {
                    Some(value) => value,
                    None => DEFAULT_RETURN_VALUE,
                };
                Ok((value, left))
            },
            None => Err(TypInterpreterError::FunctionDoesNotExist(name)),
        }
    }
}

/// Evaluates `expr`: see `expr_model`.
pub fn interp_expr(
    context: &mut InterpreterContext,
    file: &File,
    memory: &mut Vec<MemoryStruct>,
    stdout: &mut Stdout,
    expr: &Expr,
    fuel: u64,
) -> (r: TyperInterpreterResult<(Value, u64)>)
    requires
        *old(context) is Node,
    ensures
        follows(
            expr_model(
                file.funs@,
                machine_of(*old(memory), *old(stdout)),
                vars_of(*old(context)),
                *expr,
                fuel as nat,
            ),
            *final(context),
            *final(memory),
            *final(stdout),
            r,
            fuel,
        ),
    decreases fuel, 0nat,
{
    if fuel == 0 {
        return Err(TypInterpreterError::OutOfFuel);
    }
    let budget = fuel - 1;
    match &expr.node {
        ExprNode::EConst(x) => Ok((*x, budget)),
        ExprNode::EAccessLocal(ident) => {
            proof {
                lemma_read(*context, *ident);
            }
            Ok((context.get(*ident), budget))
        },
        ExprNode::EAccessField(inner, field) => {
            let (address, left) = interp_expr(context, file, memory, stdout, inner, budget)?;
            if address < 1 || address as u64 > memory.len() as u64 {
                return Err(TypInterpreterError::UnallocatedMemory(address));
            }
            Ok((memory[(address - 1) as usize].get(field.name), left))
        },
        ExprNode::EAssignLocal(ident, inner) => {
            let (value, left) = interp_expr(context, file, memory, stdout, inner, budget)?;
            let ghost before = *context;
            context.set(*ident, value);
            proof {
                assert(vars_of(*context) =~= vars_of(before).insert(*ident, value));
            }
            Ok((value, left))
        },
        ExprNode::EAssignField(object, field, assigned) => {
            let (value, left) = interp_expr(context, file, memory, stdout, assigned, budget)?;
            let (address, left) = interp_expr(context, file, memory, stdout, object, left)?;
            if address < 1 || address as u64 > memory.len() as u64 {
                return Err(TypInterpreterError::UnallocatedMemory(address));
            }
            let ghost before = machine_of(*memory, *stdout);
            let at = (address - 1) as usize;
            memory[at].set(field.name, value);
            proof {
                assert(machine_of(*memory, *stdout).memory =~= before.memory.update(
                    address - 1,
                    seq![(field.name, value)] + before.memory[address - 1],
                ));
            }
            Ok((value, left))
        },
        ExprNode::EUnop(op, inner) => {
            let (value, left) = interp_expr(context, file, memory, stdout, inner, budget)?;
            let result = match op {
                Unop::UNot => (value == 0).to_minic_bool(),
                Unop::UMinus => 0i64.wrapping_sub(value),
            };
            Ok((result, left))
        },
        ExprNode::EBinop(op, first, second) => {
            let (value_1, left) = interp_expr(context, file, memory, stdout, first, budget)?;
            match op {
                Binop::BAnd => {
                    if !value_1.to_bool() {
                        return Ok((0, left));
                    }
                },
                Binop::BOr => {
                    if value_1.to_bool() {
                        return Ok((1, left));
                    }
                },
                _ => {},
            }
            let (value_2, left) = interp_expr(context, file, memory, stdout, second, left)?;
            match op {
                Binop::BAnd | Binop::BOr => Ok((value_2.to_bool().to_minic_bool(), left)),
                _ => match binop(*op, value_1, value_2) {
                    Some(value) => Ok((value, left)),
                    None => Err(TypInterpreterError::DivisionError),
                },
            }
        },
        ExprNode::ECall(name, args) => {
            let mut inner = InterpreterContext::new();
            proof {
                assert(vars_of(inner) =~= Map::<BlockIdent, Value>::empty());
            }
            let ghost start_machine = machine_of(*memory, *stdout);
            let ghost start_vars = vars_of(*context);
            let mut left = budget;
            let mut i: usize = 0;
            while i < args.len()
                invariant
                    i <= args@.len(),
                    left <= budget,
                    budget == fuel - 1,
                    fuel > 0,
                    *context is Node,
                    inner is Node,
                    expr.node == ExprNode::ECall(*name, *args),
                    start_machine == machine_of(*old(memory), *old(stdout)),
                    start_vars == vars_of(*old(context)),
                    args_model(
                        file.funs@,
                        start_machine,
                        start_vars,
                        args@,
                        0,
                        Map::empty(),
                        budget as nat,
                    ) == args_model(
                        file.funs@,
                        machine_of(*memory, *stdout),
                        vars_of(*context),
                        args@,
                        i as nat,
                        vars_of(inner),
                        left as nat,
                    ),
                decreases args@.len() - i,
            {
                let (value, after) = interp_expr(
                    context,
                    file,
                    memory,
                    stdout,
                    &args[i].expr,
                    left,
                )?;
                let ghost before = inner;
                inner.set(args[i].formal.name, value);
                proof {
                    assert(vars_of(inner) =~= vars_of(before).insert(
                        args@[i as int].formal.name,
                        value,
                    ));
                }
                left = after;
                i = i + 1;
            }
            let (value, left) = call(file, memory, stdout, *name, &mut inner, left)?;
            Ok((value, left))
        },
    }
}

/// Runs the statements of `block` from the first on: see `block_model`.
pub fn interp_block(
    context: &mut InterpreterContext,
    file: &File,
    memory: &mut Vec<MemoryStruct>,
    stdout: &mut Stdout,
    block: &Block,
    fuel: u64,
) -> (r: TyperInterpreterResult<(Option<Value>, u64)>)
    requires
        *old(context) is Node,
    ensures
        follows(
            block_model(
                file.funs@,
                machine_of(*old(memory), *old(stdout)),
                vars_of(*old(context)),
                *block,
                0,
                fuel as nat,
            ),
            *final(context),
            *final(memory),
            *final(stdout),
            r,
            fuel,
        ),
    decreases fuel, 1nat,
{
    let ghost start_machine = machine_of(*memory, *stdout);
    let ghost start_vars = vars_of(*context);
    let mut left = fuel;
    let mut i: usize = 0;
    while i < block.stmts.len()
        invariant
            i <= block.stmts@.len(),
            left <= fuel,
            *context is Node,
            start_machine == machine_of(*old(memory), *old(stdout)),
            start_vars == vars_of(*old(context)),
            block_model(file.funs@, start_machine, start_vars, *block, 0, fuel as nat)
                == block_model(
                file.funs@,
                machine_of(*memory, *stdout),
                vars_of(*context),
                *block,
                i as nat,
                left as nat,
            ),
        decreases block.stmts@.len() - i,
    {
        let (result, after) = interp_stmt(context, file, memory, stdout, &block.stmts[i], left)?;
        match result {
            Some(value) => {
                return Ok((Some(value), after));
            },
            None => {},
        }
        left = after;
        i = i + 1;
    }
    Ok((None, left))
}

/// Runs `stmt`: see `stmt_model`.
pub fn interp_stmt(
    context: &mut InterpreterContext,
    file: &File,
    memory: &mut Vec<MemoryStruct>,
    stdout: &mut Stdout,
    stmt: &Stmt,
    fuel: u64,
) -> (r: TyperInterpreterResult<(Option<Value>, u64)>)
    requires
        *old(context) is Node,
    ensures
        follows(
            stmt_model(
                file.funs@,
                machine_of(*old(memory), *old(stdout)),
                vars_of(*old(context)),
                *stmt,
                fuel as nat,
            ),
            *final(context),
            *final(memory),
            *final(stdout),
            r,
            fuel,
        ),
    decreases fuel, 0nat,
{
    if fuel == 0 {
        return Err(TypInterpreterError::OutOfFuel);
    }
    match stmt {
        Stmt::SSkip => Ok((None, fuel - 1)),
        Stmt::SExpr(expr) => {
            let (_, left) = interp_expr(context, file, memory, stdout, expr, fuel - 1)?;
            Ok((None, left))
        },
        Stmt::SIf(expr, stmt_if, stmt_else) => {
            let (value, left) = interp_expr(context, file, memory, stdout, expr, fuel - 1)?;
            if value.to_bool() {
                interp_stmt(context, file, memory, stdout, stmt_if, left)
            } else {
                interp_stmt(context, file, memory, stdout, stmt_else, left)
            }
        },
        Stmt::SWhile(expr, body) => {
            let ghost start_machine = machine_of(*memory, *stdout);
            let ghost start_vars = vars_of(*context);
            let mut left = fuel;
            loop
                invariant
                    0 < left <= fuel,
                    *context is Node,
                    *stmt == Stmt::SWhile(*expr, *body),
                    start_machine == machine_of(*old(memory), *old(stdout)),
                    start_vars == vars_of(*old(context)),
                    stmt_model(file.funs@, start_machine, start_vars, *stmt, fuel as nat)
                        == stmt_model(
                        file.funs@,
                        machine_of(*memory, *stdout),
                        vars_of(*context),
                        *stmt,
                        left as nat,
                    ),
                decreases left,
            {
                let (value, after) = interp_expr(context, file, memory, stdout, expr, left - 1)?;
                if !value.to_bool() {
                    return Ok((None, after));
                }
                let (result, after) = interp_stmt(context, file, memory, stdout, body, after)?;
                match result {
                    Some(value) => {
                        return Ok((Some(value), after));
                    },
                    None => {},
                }
                if after == 0 {
                    proof {
                        assert(stmt_model(
                            file.funs@,
                            machine_of(*memory, *stdout),
                            vars_of(*context),
                            *stmt,
                            0,
                        ) is Err);
                    }
                    return Err(TypInterpreterError::OutOfFuel);
                }
                left = after;
            }
        },
        Stmt::SBlock(block) => interp_block(context, file, memory, stdout, block, fuel - 1),
        Stmt::SReturn(expr) => {
            let (value, left) = interp_expr(context, file, memory, stdout, expr, fuel - 1)?;
            Ok((Some(value), left))
        },
    }
}

/// Runs the program from `main` for at most `fuel` steps, and returns what
/// it has written.
pub fn interp_typed_file(file: &File, fuel: u64) -> (r: TyperInterpreterResult<Stdout>)
    ensures
        match file_model(file.funs@, fuel as nat) {
            Ok(written) => r is Ok && r->Ok_0@ == written,
            Err(error) => r is Err && r->Err_0 == error,
        },
{
    let mut context = InterpreterContext::new();
    proof {
        assert(vars_of(context) =~= Map::<BlockIdent, Value>::empty());
    }
    let mut stdout = Stdout::new();
    let mut memory: Vec<MemoryStruct> = Vec::new();
    proof {
        assert(machine_of(memory, stdout).memory =~= Seq::<Seq<(Ident, Value)>>::empty());
    }
    call(file, &mut memory, &mut stdout, Ident::main(), &mut context, fuel)?;
    Ok(stdout)
}

} // verus!

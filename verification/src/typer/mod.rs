pub mod context;
pub mod error;
pub mod interpreter;
pub mod model;
pub mod rules;
pub mod structure;

use crate::common::{Ident, MAIN};
use crate::parser::structure as parser;
use crate::typer::context::{
    find_field, interned, BlockContext, FileContext, FunctionContext, ParentContext,
};
use crate::typer::error::{DuplicateFieldName, IncompatibleTyp, TypError};
use crate::typer::model::{
    args_error, elaborates, field_model, ident_model, typ_of, typed_as_model, var_model, wrong,
};
use crate::typer::context::{intern_model, struct_index};
use crate::typer::rules::{
    binds, completed, file_err, file_ok, fills, fun_err, fun_ok, funs_err, funs_ok, main_error,
    main_index, named_in, names_argument, signed, starts, struct_err, struct_ok, structs_err,
    structs_ok, with_struct, block_err, block_ok, carried, counted, declared_in, settled, declares,
    left, opened, stmt_err, stmt_ok, stmts_err, stmts_ok, typ_model,
};
use crate::typer::structure::{
    ArgExpr, Binop, Block, BlockIdent, Expr, ExprNode, Field, File, Formal, Fun, Signature, Stmt,
    Struct, Typ, Unop,
};
use crate::utils::enumerate_items;
use vstd::prelude::*;

verus! {

pub type TypResult<T> = Result<T, TypError>;

/// Whether a value of the type `second` can stand where one of the type
/// `first` is expected.
pub fn typed_as(first: &Typ, second: &Typ) -> (r: bool)
    ensures
        r == typed_as_model(*first, *second),
{
    if *first == *second {
        return true;
    }
    match (first, second) {
        (Typ::TTypeNull, Typ::TInt) => true,
        (Typ::TInt, Typ::TTypeNull) => true,
        (Typ::TTypeNull, Typ::TStruct(_)) => true,
        (Typ::TStruct(_), Typ::TTypeNull) => true,
        (Typ::TVoidStar, Typ::TStruct(_)) => true,
        (Typ::TStruct(_), Typ::TVoidStar) => true,
        (_, _) => false,
    }
}

/// The name spelt `name`, if it is in the name table.
pub fn resolve_ident(file: &FileContext, name: &String) -> (r: Option<Ident>)
    requires
        counted(*file),
    ensures
        r == ident_model(*file, name@),
{
    file.lookup(name)
}

/// The variable spelt `name`, as it is scoped, with its type.
pub fn resolve_var(file: &FileContext, context: &FunctionContext, name: &String) -> (r: Option<
    (BlockIdent, Typ),
>)
    requires
        counted(*file),
    ensures
        r == var_model(*file, *context, name@),
{
    match resolve_ident(file, name) {
        Some(ident) => context.find(ident),
        None => None,
    }
}

/// The field spelt `name` of the struct named `structure`.
pub fn resolve_field(file: &FileContext, structure: Ident, name: &String) -> (r: Option<Field>)
    requires
        counted(*file),
    ensures
        r == field_model(*file, structure, name@),
{
    match file.find_struct(structure) {
        Some(index) => match resolve_ident(file, name) {
            Some(ident) => find_field(&file.structs[index], ident),
            None => None,
        },
        None => None,
    }
}

/// The source type as a type of the typed program; a struct must be
/// declared.
pub fn typ_typ(file: &FileContext, typ: &parser::Typ) -> (r: TypResult<Typ>)
    requires
        counted(*file),
    ensures
        r == typ_model(*file, *typ),
{
    match typ {
        parser::Typ::TInt => Ok(Typ::TInt),
        parser::Typ::TStruct(name) => match resolve_ident(file, name) {
            Some(ident) => match file.find_struct(ident) {
                Some(index) => Ok(Typ::TStruct(file.structs[index].name)),
                None => Err(TypError::StructDoesNotExist),
            },
            None => Err(TypError::StructDoesNotExist),
        },
    }
}

/// Types the arguments of the call `call` against `formals`.
fn typ_args(
    file: &FileContext,
    context: &FunctionContext,
    call: &parser::Expr,
    formals: &Vec<Formal>,
) -> (r: TypResult<Vec<ArgExpr>>)
    requires
        counted(*file),
        *call is ECall,
    ensures
        match args_error(*file, *context, *call, formals@, 0) {
            Some(error) => r is Err && r->Err_0 == error,
            None => r is Ok && r->Ok_0@.len() == call->ECall_1@.len() && call->ECall_1@.len()
                == formals@.len() && forall|i: int|
                0 <= i < formals@.len() ==> (#[trigger] r->Ok_0@[i]).formal == formals@[i]
                    && elaborates(*file, *context, call->ECall_1@[i], r->Ok_0@[i].expr),
        },
    decreases call, 0nat, 0nat,
{
    match call {
        parser::Expr::ECall(_, args) => {
            let mut typed: Vec<ArgExpr> = Vec::new();
            let mut i: usize = 0;
            while i < args.len() && i < formals.len()
                invariant
                    counted(*file),
                    *call is ECall,
                    call->ECall_1 == *args,
                    i <= args@.len(),
                    i <= formals@.len(),
                    typed@.len() == i,
                    args_error(*file, *context, *call, formals@, 0) == args_error(
                        *file,
                        *context,
                        *call,
                        formals@,
                        i as nat,
                    ),
                    forall|k: int|
                        0 <= k < i ==> (#[trigger] typed@[k]).formal == formals@[k] && elaborates(
                            *file,
                            *context,
                            args@[k],
                            typed@[k].expr,
                        ),
                decreases args@.len() - i,
            {
                let expr = typ_expr(file, context, &args[i])?;
                let formal = formals[i];
                if !typed_as(&formal.typ, &expr.typ) {
                    return Err(
                        TypError::WrongExpressionTyp(IncompatibleTyp::new(formal.typ, expr.typ)),
                    );
                }
                typed.push(ArgExpr::new(formal, expr));
                i = i + 1;
            }
            if i < args.len() {
                Err(TypError::TooManyArguments)
            } else if i < formals.len() {
                Err(TypError::TooFewArguments)
            } else {
                Ok(typed)
            }
        },
        _ => Ok(Vec::new()),
    }
}

/// Types an assignment of `value` to `target`.
fn typ_assign(
    file: &FileContext,
    context: &FunctionContext,
    expr: &parser::Expr,
    target: &parser::Expr,
    value: &parser::Expr,
) -> (r: TypResult<Expr>)
    requires
        counted(*file),
        *expr is EAssign,
        *expr->EAssign_0 == *target,
        *expr->EAssign_1 == *value,
    ensures
        match typ_of(*file, *context, *expr) {
            Ok(_) => r is Ok && elaborates(*file, *context, *expr, r->Ok_0),
            Err(error) => r is Err && r->Err_0 == error,
        },
    decreases expr, 1nat, 0nat,
{
    let typed_value = typ_expr(file, context, value)?;
    let typ_2 = typed_value.typ;
    match target {
        parser::Expr::EVar(name) => match resolve_var(file, context, name) {
            Some((ident, typ_1)) => {
                if typed_as(&typ_1, &typ_2) {
                    Ok(Expr::new(ExprNode::EAssignLocal(ident, Box::new(typed_value)), typ_1))
                } else {
                    Err(TypError::VariableDoesNotExist)
                }
            },
            None => Err(TypError::VariableDoesNotExist),
        },
        parser::Expr::EArrow(object, field_name) => {
            let typed_object = typ_expr(file, context, object)?;
            match typed_object.typ {
                Typ::TStruct(structure) => match resolve_field(file, structure, field_name) {
                    Some(field) => {
                        if typed_as(&field.typ, &typ_2) {
                            Ok(
                                Expr::new(
                                    ExprNode::EAssignField(
                                        Box::new(typed_object),
                                        field,
                                        Box::new(typed_value),
                                    ),
                                    field.typ,
                                ),
                            )
                        } else {
                            Err(TypError::FieldDoesntExist(structure))
                        }
                    },
                    None => Err(TypError::FieldDoesntExist(structure)),
                },
                other => Err(TypError::AccessingFieldOnNonStructTyp(other)),
            }
        },
        _ => Err(TypError::AssigningToNonAssignableExpression),
    }
}

/// Types a binary operation.
fn typ_binop(
    file: &FileContext,
    context: &FunctionContext,
    expr: &parser::Expr,
    op: Binop,
    first: &parser::Expr,
    second: &parser::Expr,
) -> (r: TypResult<Expr>)
    requires
        counted(*file),
        *expr is EBinop,
        expr->EBinop_0 == op,
        *expr->EBinop_1 == *first,
        *expr->EBinop_2 == *second,
    ensures
        match typ_of(*file, *context, *expr) {
            Ok(_) => r is Ok && elaborates(*file, *context, *expr, r->Ok_0),
            Err(error) => r is Err && r->Err_0 == error,
        },
    decreases expr, 1nat, 0nat,
{
    let typed_first = typ_expr(file, context, first)?;
    let typed_second = typ_expr(file, context, second)?;
    let typ_1 = typed_first.typ;
    let typ_2 = typed_second.typ;
    match op {
        Binop::BEq | Binop::BNeq | Binop::BLt | Binop::BGt | Binop::BGe | Binop::BLe => {
            if !typed_as(&typ_1, &typ_2) {
                return Err(TypError::WrongExpressionTyp(IncompatibleTyp::new(typ_1, typ_2)));
            }
        },
        Binop::BAdd | Binop::BSub | Binop::BMul | Binop::BDiv => {
            if !typed_as(&typ_1, &Typ::TInt) {
                return Err(TypError::WrongExpressionTyp(IncompatibleTyp::new(Typ::TInt, typ_1)));
            }
            if !typed_as(&typ_2, &Typ::TInt) {
                return Err(TypError::WrongExpressionTyp(IncompatibleTyp::new(Typ::TInt, typ_2)));
            }
        },
        Binop::BAnd | Binop::BOr => {},
    }
    Ok(
        Expr::new(
            ExprNode::EBinop(op, Box::new(typed_first), Box::new(typed_second)),
            Typ::TInt,
        ),
    )
}

/// Types a call.
fn typ_call(file: &FileContext, context: &FunctionContext, expr: &parser::Expr) -> (r: TypResult<
    Expr,
>)
    requires
        counted(*file),
        *expr is ECall,
    ensures
        match typ_of(*file, *context, *expr) {
            Ok(_) => r is Ok && elaborates(*file, *context, *expr, r->Ok_0),
            Err(error) => r is Err && r->Err_0 == error,
        },
    decreases expr, 1nat, 0nat,
{
    match expr {
        parser::Expr::ECall(callee, _) => match &**callee {
            parser::Expr::EVar(name) => {
                let found = match resolve_ident(file, name) {
                    Some(ident) => file.find_fun(ident),
                    None => None,
                };
                match found {
                    Some(index) => {
                        let signature = &file.funs[index];
                        let typed_args = typ_args(file, context, expr, &signature.args)?;
                        Ok(Expr::new(ExprNode::ECall(signature.name, typed_args), signature.typ))
                    },
                    None => Err(TypError::FunctionDoesntExist),
                }
            },
            _ => Err(TypError::CallingANonFunctionExpression),
        },
        _ => Err(TypError::CallingANonFunctionExpression),
    }
}

/// Types `expr`: resolves its names and works out its type, or says what
/// is wrong with it.
pub fn typ_expr(file: &FileContext, context: &FunctionContext, expr: &parser::Expr) -> (r:
    TypResult<Expr>)
    requires
        counted(*file),
    ensures
        match typ_of(*file, *context, *expr) {
            Ok(_) => r is Ok && elaborates(*file, *context, *expr, r->Ok_0),
            Err(error) => r is Err && r->Err_0 == error,
        },
    decreases expr, 2nat, 0nat,
{
    match expr {
        parser::Expr::EConst(x) => Ok(
            Expr::new(
                ExprNode::EConst(*x),
                if *x == 0 {
                    Typ::TTypeNull
                } else {
                    Typ::TInt
                },
            ),
        ),
        parser::Expr::EVar(name) => match resolve_var(file, context, name) {
            Some((ident, typ)) => Ok(Expr::new(ExprNode::EAccessLocal(ident), typ)),
            None => Err(TypError::VariableDoesNotExist),
        },
        parser::Expr::EArrow(inner, field_name) => {
            let typed_inner = typ_expr(file, context, inner)?;
            match typed_inner.typ {
                Typ::TStruct(structure) => match resolve_field(file, structure, field_name) {
                    Some(field) => Ok(
                        Expr::new(ExprNode::EAccessField(Box::new(typed_inner), field), field.typ),
                    ),
                    None => Err(TypError::FieldDoesntExist(structure)),
                },
                _ => Err(TypError::DereferenceNonStructPointer),
            }
        },
        parser::Expr::EAssign(target, value) => typ_assign(file, context, expr, target, value),
        parser::Expr::EUnop(op, inner) => {
            let typed_inner = typ_expr(file, context, inner)?;
            match op {
                Unop::UNot => Ok(
                    Expr::new(ExprNode::EUnop(*op, Box::new(typed_inner)), Typ::TInt),
                ),
                Unop::UMinus => {
                    if typed_as(&typed_inner.typ, &Typ::TInt) {
                        Ok(Expr::new(ExprNode::EUnop(*op, Box::new(typed_inner)), Typ::TInt))
                    } else {
                        Err(
                            TypError::WrongExpressionTyp(
                                IncompatibleTyp::new(Typ::TInt, typed_inner.typ),
                            ),
                        )
                    }
                },
            }
        },
        parser::Expr::EBinop(op, first, second) => typ_binop(
            file,
            context,
            expr,
            *op,
            first,
            second,
        ),
        parser::Expr::ECall(_, _) => typ_call(file, context, expr),
        parser::Expr::ESizeof(name) => {
            let found = match resolve_ident(file, name) {
                Some(ident) => file.find_struct(ident),
                None => None,
            };
            match found {
                Some(index) => match file.structs[index].c_size() {
                    Some(size) => Ok(Expr::new(ExprNode::EConst(size), Typ::TInt)),
                    None => Err(TypError::TooMany),
                },
                None => Err(TypError::StructDoesNotExist),
            }
        },
    }
}

/// Whether `ident` is declared in `vars`.
fn declared(vars: &Vec<(Ident, Typ)>, ident: Ident) -> (r: bool)
    ensures
        r == declared_in(vars@, ident),
{
    let mut i: usize = 0;
    while i < vars.len()
        invariant
            i <= vars@.len(),
            forall|k: int| 0 <= k < i ==> (#[trigger] vars@[k]).0 != ident,
        decreases vars@.len() - i,
    {
        if vars[i].0 == ident {
            return true;
        }
        i = i + 1;
    }
    false
}

/// Types the statements of `block` in a scope of its own, which holds the
/// variables that the block declares. It fails where a variable is
/// declared twice in the block, where a type is not declared, and where a
/// statement is ill-typed.
pub fn typ_block(file: &mut FileContext, context: &mut FunctionContext, block: &parser::Block) -> (r:
    TypResult<Block>)
    requires
        counted(*old(file)),
    ensures
        carried(*old(file), *final(file)),
        r is Ok ==> settled(*old(context), *final(context)),
        match r {
            Ok(typed) => block_ok(
                *old(file),
                *old(context),
                *block,
                typed,
                *final(file),
                *final(context),
            ),
            Err(error) => block_err(*old(file), *old(context), *block, error),
        },
    decreases block, 1nat,
{
    let mut vars: Vec<(Ident, Typ)> = Vec::new();
    let mut i: usize = 0;
    while i < block.vars.len()
        invariant
            i <= block.vars@.len(),
            carried(*old(file), *file),
            *context == *old(context),
            forall|dr: Result<Seq<(Ident, Typ)>, TypError>, fd: FileContext| #[trigger]
                declares(*file, block.vars@, i as int, vars@, dr, fd) ==> declares(
                    *old(file),
                    block.vars@,
                    0,
                    Seq::empty(),
                    dr,
                    fd,
                ),
        decreases block.vars@.len() - i,
    {
        let var = &block.vars[i];
        let ghost here = *file;
        let typ = match typ_typ(file, &var.typ) {
            Ok(typ) => typ,
            Err(error) => {
                proof {
                    assert(declares(here, block.vars@, i as int, vars@, Err(error), here));
                }
                return Err(error);
            },
        };
        let ident = match file.intern(&var.name) {
            Some(ident) => ident,
            None => {
                proof {
                    assert(declares(
                        here,
                        block.vars@,
                        i as int,
                        vars@,
                        Err(TypError::TooMany),
                        here,
                    ));
                }
                return Err(TypError::TooMany);
            },
        };
        if declared(&vars, ident) {
            proof {
                assert(declares(
                    here,
                    block.vars@,
                    i as int,
                    vars@,
                    Err(TypError::DuplicateVarName(ident)),
                    here,
                ));
            }
            return Err(TypError::DuplicateVarName(ident));
        }
        let ghost before = vars@;
        vars.push((ident, typ));
        proof {
            assert forall|dr: Result<Seq<(Ident, Typ)>, TypError>, fd: FileContext| #[trigger]
                declares(*file, block.vars@, i + 1, vars@, dr, fd) implies declares(
                here,
                block.vars@,
                i as int,
                before,
                dr,
                fd,
            ) by {
                assert(interned(here, block.vars@[i as int].name@, *file));
            }
        }
        i = i + 1;
    }
    let ghost declared_file = *file;
    proof {
        assert(declares(
            declared_file,
            block.vars@,
            block.vars@.len() as int,
            vars@,
            Ok(vars@),
            declared_file,
        ));
    }
    let index = match context.fresh_index() {
        Some(index) => index,
        None => {
            return Err(TypError::TooMany);
        },
    };
    let mut k: usize = 0;
    while k < vars.len()
        invariant
            k <= vars@.len(),
            settled(*old(context), *context),
            context.block_counter == old(context).block_counter + 1,
            context.scopes == old(context).scopes,
            index == old(context).block_counter,
            context.locals@ == old(context).locals@ + Seq::new(
                k as nat,
                |w: int| BlockIdent::Local(index, vars@[w].0),
            ),
        decreases vars@.len() - k,
    {
        context.locals.push(BlockIdent::Local(index, vars[k].0));
        assert(context.locals@ =~= old(context).locals@ + Seq::new(
            (k + 1) as nat,
            |w: int| BlockIdent::Local(index, vars@[w].0),
        ));
        k = k + 1;
    }
    let ghost names = vars@;
    context.scopes.push(BlockContext::new(index, vars));
    let ghost inside = *context;
    proof {
        assert(inside.scopes@.drop_last() =~= old(context).scopes@);
        assert(inside.locals@ =~= old(context).locals@ + Seq::new(
            names.len(),
            |w: int| BlockIdent::Local(old(context).block_counter, names[w].0),
        ));
        assert(opened(*old(context), names, inside));
    }
    let mut stmts: Vec<Stmt> = Vec::new();
    let mut j: usize = 0;
    while j < block.stmts.len()
        invariant
            j <= block.stmts@.len(),
            stmts@.len() == j,
            carried(*old(file), *file),
            context.name == old(context).name,
            context.typ == old(context).typ,
            context.arguments == old(context).arguments,
            context.scopes@.len() == old(context).scopes@.len() + 1,
            declares(*old(file), block.vars@, 0, Seq::empty(), Ok(names), declared_file),
            opened(*old(context), names, inside),
            forall|error: TypError| #[trigger]
                stmts_err(*file, *context, *block, j as int, error) ==> stmts_err(
                    declared_file,
                    inside,
                    *block,
                    0,
                    error,
                ),
            forall|typed: Seq<Stmt>, fe: FileContext, ce: FunctionContext| #[trigger]
                stmts_ok(*file, *context, *block, j as int, typed, fe, ce) && typed.len()
                    == block.stmts@.len() && typed.take(j as int) == stmts@ ==> stmts_ok(
                    declared_file,
                    inside,
                    *block,
                    0,
                    typed,
                    fe,
                    ce,
                ),
        decreases block.stmts@.len() - j,
    {
        let ghost before = *file;
        let ghost here = *context;
        let ghost done = stmts@;
        let stmt = match typ_stmt(file, context, &block.stmts[j]) {
            Ok(stmt) => stmt,
            Err(error) => {
                proof {
                    assert(stmts_err(before, here, *block, j as int, error));
                }
                return Err(error);
            },
        };
        stmts.push(stmt);
        proof {
            assert forall|error: TypError| #[trigger]
                stmts_err(*file, *context, *block, j + 1, error) implies stmts_err(
                before,
                here,
                *block,
                j as int,
                error,
            ) by {
                assert(stmt_ok(before, here, block.stmts@[j as int], stmt, *file, *context));
            }
            assert forall|typed: Seq<Stmt>, fe: FileContext, ce: FunctionContext| #[trigger]
                stmts_ok(*file, *context, *block, j + 1, typed, fe, ce) && typed.len()
                    == block.stmts@.len() && typed.take(j + 1) == stmts@ implies stmts_ok(
                before,
                here,
                *block,
                j as int,
                typed,
                fe,
                ce,
            ) && typed.take(j as int) == done by {
                assert(stmts@[j as int] == stmt);
                assert(typed.take(j + 1)[j as int] == typed[j as int]);
                assert(typed[j as int] == stmt);
                assert(stmt_ok(
                    before,
                    here,
                    block.stmts@[j as int],
                    typed[j as int],
                    *file,
                    *context,
                ));
                assert(stmts_ok(before, here, *block, j as int, typed, fe, ce));
                assert(typed.take(j as int) =~= typed.take(j + 1).take(j as int));
                assert(stmts@.take(j as int) =~= done);
            }
        }
        j = j + 1;
    }
    let ghost last = *context;
    let _ = context.scopes.pop();
    let typed = Block::new(stmts);
    proof {
        assert(typed.stmts@.take(j as int) =~= typed.stmts@);
        assert(stmts_ok(*file, last, *block, j as int, typed.stmts@, *file, last));
        assert(stmts_ok(declared_file, inside, *block, 0, typed.stmts@, *file, last));
        assert(left(last, *context));
    }
    Ok(typed)
}

/// Types `stmt`. A `return` must hand back a value of the type of the
/// function.
pub fn typ_stmt(file: &mut FileContext, context: &mut FunctionContext, stmt: &parser::Stmt) -> (r:
    TypResult<Stmt>)
    requires
        counted(*old(file)),
    ensures
        carried(*old(file), *final(file)),
        r is Ok ==> settled(*old(context), *final(context)),
        match r {
            Ok(typed) => stmt_ok(
                *old(file),
                *old(context),
                *stmt,
                typed,
                *final(file),
                *final(context),
            ),
            Err(error) => stmt_err(*old(file), *old(context), *stmt, error),
        },
    decreases stmt, 0nat,
{
    match stmt {
        parser::Stmt::SSkip => Ok(Stmt::SSkip),
        parser::Stmt::SExpr(expr) => {
            let typed = typ_expr(file, context, expr)?;
            Ok(Stmt::SExpr(typed))
        },
        parser::Stmt::SIf(expr, stmt_if, stmt_else) => {
            let typed = typ_expr(file, context, expr)?;
            let typed_if = typ_stmt(file, context, stmt_if)?;
            let ghost mid = *file;
            let ghost between = *context;
            let typed_else = match typ_stmt(file, context, stmt_else) {
                Ok(typed_else) => typed_else,
                Err(error) => {
                    proof {
                        assert(stmt_ok(
                            *old(file),
                            *old(context),
                            **stmt_if,
                            typed_if,
                            mid,
                            between,
                        ));
                    }
                    return Err(error);
                },
            };
            let result = Stmt::SIf(typed, Box::new(typed_if), Box::new(typed_else));
            proof {
                assert(stmt_ok(
                    *old(file),
                    *old(context),
                    **stmt_if,
                    *result->SIf_1,
                    mid,
                    between,
                ));
            }
            Ok(result)
        },
        parser::Stmt::SWhile(expr, body) => {
            let typed = typ_expr(file, context, expr)?;
            let typed_body = typ_stmt(file, context, body)?;
            Ok(Stmt::SWhile(typed, Box::new(typed_body)))
        },
        parser::Stmt::SBlock(block) => {
            let typed = typ_block(file, context, block)?;
            Ok(Stmt::SBlock(typed))
        },
        parser::Stmt::SReturn(expr) => {
            let typed = typ_expr(file, context, expr)?;
            if typed_as(&typed.typ, &context.typ) {
                Ok(Stmt::SReturn(typed))
            } else {
                Err(TypError::WrongExpressionTyp(IncompatibleTyp::new(context.typ, typed.typ)))
            }
        },
    }
}

/// A copy of `formals`.
fn copy_formals(formals: &Vec<Formal>) -> (r: Vec<Formal>)
    ensures
        r@ == formals@,
{
    let mut out: Vec<Formal> = Vec::new();
    let mut i: usize = 0;
    while i < formals.len()
        invariant
            i <= formals@.len(),
            out@ == formals@.take(i as int),
        decreases formals@.len() - i,
    {
        out.push(formals[i]);
        assert(out@ =~= formals@.take(i + 1));
        i = i + 1;
    }
    assert(formals@.take(formals@.len() as int) =~= formals@);
    out
}

/// Whether an argument named `ident` is among `formals`.
fn has_argument(formals: &Vec<Formal>, ident: Ident) -> (r: bool)
    ensures
        r == named_in(formals@, ident),
{
    let mut i: usize = 0;
    while i < formals.len()
        invariant
            i <= formals@.len(),
            forall|k: int| 0 <= k < i ==> !#[trigger] names_argument(formals@[k], ident),
        decreases formals@.len() - i,
    {
        match formals[i].name {
            BlockIdent::Arg(_, name) => {
                if name == ident {
                    assert(names_argument(formals@[i as int], ident));
                    return true;
                }
            },
            BlockIdent::Local(_, _) => {},
        }
        i = i + 1;
    }
    false
}

/// Types the function `fun` and adds its signature to `file`, so that the
/// function may call itself. It fails where two arguments share a name,
/// where a function of that name is declared already, where a type is not
/// declared, and where the body is ill-typed.
pub fn typ_fun(file: &mut FileContext, fun: &parser::Fun) -> (r: TypResult<Fun>)
    requires
        counted(*old(file)),
    ensures
        counted(*final(file)),
        final(file).structs == old(file).structs,
        match r {
            Ok(typed) => fun_ok(*old(file), *fun, typed, *final(file)),
            Err(error) => fun_err(*old(file), *fun, error),
        },
{
    let fun_typ = typ_typ(file, &fun.profile.typ)?;
    let fun_name = match file.intern(&fun.profile.name) {
        Some(ident) => ident,
        None => {
            return Err(TypError::TooMany);
        },
    };
    let ghost named = *file;
    let numbered = enumerate_items(&fun.args);
    let mut args: Vec<Formal> = Vec::new();
    let mut i: usize = 0;
    while i < numbered.len()
        invariant
            i <= fun.args@.len(),
            args@.len() == i,
            numbered@.len() == fun.args@.len(),
            forall|k: int|
                0 <= k < numbered@.len() ==> (#[trigger] numbered@[k]).0 == k && *numbered@[k].1
                    == fun.args@[k],
            counted(*file),
            file.structs == old(file).structs,
            file.funs == old(file).funs,
            typ_model(*old(file), fun.profile.typ) == Ok::<Typ, TypError>(fun_typ),
            intern_model(*old(file), fun.profile.name@) == Some(fun_name),
            interned(*old(file), fun.profile.name@, named),
            forall|br: Result<Seq<Formal>, TypError>, fb: FileContext| #[trigger]
                binds(*file, fun.args@, i as int, args@, br, fb) ==> binds(
                    named,
                    fun.args@,
                    0,
                    Seq::empty(),
                    br,
                    fb,
                ),
        decreases fun.args@.len() - i,
    {
        let (index, arg) = numbered[i];
        let ghost here = *file;
        let name = match file.intern(&arg.name) {
            Some(ident) => ident,
            None => {
                proof {
                    assert(binds(here, fun.args@, i as int, args@, Err(TypError::TooMany), here));
                }
                return Err(TypError::TooMany);
            },
        };
        if has_argument(&args, name) {
            proof {
                assert(binds(
                    here,
                    fun.args@,
                    i as int,
                    args@,
                    Err(TypError::DuplicateArgName(name)),
                    here,
                ));
            }
            return Err(TypError::DuplicateArgName(name));
        }
        let typ = match typ_typ(file, &arg.typ) {
            Ok(typ) => typ,
            Err(error) => {
                proof {
                    assert(interned(here, fun.args@[i as int].name@, *file));
                    assert(binds(here, fun.args@, i as int, args@, Err(error), here));
                }
                return Err(error);
            },
        };
        let ghost before = args@;
        args.push(Formal::new(BlockIdent::Arg(index, name), typ));
        proof {
            assert forall|br: Result<Seq<Formal>, TypError>, fb: FileContext| #[trigger]
                binds(*file, fun.args@, i + 1, args@, br, fb) implies binds(
                here,
                fun.args@,
                i as int,
                before,
                br,
                fb,
            ) by {
                assert(interned(here, fun.args@[i as int].name@, *file));
                assert(args@ == before.push(
                    Formal { name: BlockIdent::Arg(i as usize, name), typ },
                ));
            }
        }
        i = i + 1;
    }
    let ghost bound = *file;
    proof {
        assert(binds(bound, fun.args@, fun.args@.len() as int, args@, Ok(args@), bound));
    }
    match file.find_fun(fun_name) {
        Some(_) => {
            return Err(TypError::DuplicateFunName(fun_name));
        },
        None => {},
    }
    file.funs.push(Signature::new(fun_name, fun_typ, copy_formals(&args)));
    let ghost known = *file;
    let mut context = FunctionContext::new(fun_name, fun_typ, copy_formals(&args));
    let ghost start = context;
    proof {
        assert(known.funs@.drop_last() =~= bound.funs@);
        assert(signed(bound, fun_name, fun_typ, args@, known));
        assert(starts(start, fun_name, fun_typ, args@));
    }
    let block = match typ_block(file, &mut context, &fun.body) {
        Ok(block) => block,
        Err(error) => {
            proof {
                let br = Ok::<Seq<Formal>, TypError>(args@);
                assert(binds(named, fun.args@, 0, Seq::empty(), br, bound));
                assert(block_err(known, start, fun.body, error));
                assert(br->Ok_0 == args@);
            }
            return Err(error);
        },
    };
    let typed = Fun::new(Signature::new(fun_name, fun_typ, args), context.locals, block);
    proof {
        assert(signed(
            bound,
            typed.signature.name,
            typed.signature.typ,
            typed.signature.args@,
            known,
        ));
        assert(settled(start, context));
    }
    Ok(typed)
}

/// Types the struct `structure` and adds it to `file`. Its fields may
/// point to the struct itself. It fails where a struct of that name is
/// declared already, where two fields share a name, and where the type of
/// a field is not declared.
pub fn typ_struct(file: &mut FileContext, structure: &parser::Struct) -> (r: TypResult<()>)
    requires
        counted(*old(file)),
    ensures
        counted(*final(file)),
        final(file).funs == old(file).funs,
        match r {
            Ok(_) => struct_ok(*old(file), *structure, *final(file)),
            Err(error) => struct_err(*old(file), *structure, error),
        },
{
    let name = match file.intern(&structure.name) {
        Some(ident) => ident,
        None => {
            return Err(TypError::TooMany);
        },
    };
    let ghost named = *file;
    match file.find_struct(name) {
        Some(_) => {
            return Err(TypError::DuplicateStructName(name));
        },
        None => {},
    }
    file.structs.push(Struct::new(name, Vec::new()));
    let ghost known = *file;
    proof {
        assert(known.structs@.drop_last() =~= named.structs@);
        assert(with_struct(named, name, Seq::empty(), known));
    }
    let numbered = enumerate_items(&structure.fields);
    let mut fields: Vec<Field> = Vec::new();
    let mut i: usize = 0;
    while i < numbered.len()
        invariant
            i <= structure.fields@.len(),
            fields@.len() == i,
            numbered@.len() == structure.fields@.len(),
            forall|k: int|
                0 <= k < numbered@.len() ==> (#[trigger] numbered@[k]).0 == k && *numbered@[k].1
                    == structure.fields@[k],
            counted(*file),
            file.funs == old(file).funs,
            file.structs == known.structs,
            intern_model(*old(file), structure.name@) == Some(name),
            interned(*old(file), structure.name@, named),
            struct_index(named.structs@, name, 0) is None,
            with_struct(named, name, Seq::empty(), known),
            forall|fr: Result<Seq<Field>, TypError>, ff: FileContext| #[trigger]
                fills(*file, name, structure.fields@, i as int, fields@, fr, ff) ==> fills(
                    known,
                    name,
                    structure.fields@,
                    0,
                    Seq::empty(),
                    fr,
                    ff,
                ),
        decreases structure.fields@.len() - i,
    {
        let ghost here = *file;
        let (index, field) = numbered[i];
        if index > 255 {
            proof {
                assert(fills(
                    here,
                    name,
                    structure.fields@,
                    i as int,
                    fields@,
                    Err(TypError::TooMany),
                    here,
                ));
            }
            return Err(TypError::TooMany);
        }
        let field_name = match file.intern(&field.name) {
            Some(ident) => ident,
            None => {
                proof {
                    assert(fills(
                        here,
                        name,
                        structure.fields@,
                        i as int,
                        fields@,
                        Err(TypError::TooMany),
                        here,
                    ));
                }
                return Err(TypError::TooMany);
            },
        };
        let ghost before = fields@;
        let probe = Struct::new(name, fields);
        let taken = find_field(&probe, field_name);
        fields = probe.fields;
        match taken {
            Some(_) => {
                let error = TypError::DuplicateFieldName(
                    DuplicateFieldName::new(name, field_name),
                );
                proof {
                    assert(fills(here, name, structure.fields@, i as int, before, Err(error), here));
                }
                return Err(error);
            },
            None => {},
        }
        let typ = match typ_typ(file, &field.typ) {
            Ok(typ) => typ,
            Err(error) => {
                proof {
                    assert(interned(here, structure.fields@[i as int].name@, *file));
                    assert(fills(here, name, structure.fields@, i as int, before, Err(error), here));
                }
                return Err(error);
            },
        };
        fields.push(Field::new(field_name, index as u8, typ));
        proof {
            assert forall|fr: Result<Seq<Field>, TypError>, ff: FileContext| #[trigger]
                fills(*file, name, structure.fields@, i + 1, fields@, fr, ff) implies fills(
                here,
                name,
                structure.fields@,
                i as int,
                before,
                fr,
                ff,
            ) by {
                assert(interned(here, structure.fields@[i as int].name@, *file));
                assert(fields@ == before.push(Field { name: field_name, index: i as u8, typ }));
            }
        }
        i = i + 1;
    }
    let ghost filled = *file;
    proof {
        assert(fills(
            filled,
            name,
            structure.fields@,
            structure.fields@.len() as int,
            fields@,
            Ok(fields@),
            filled,
        ));
    }
    let ghost all = fields@;
    let _ = file.structs.pop();
    file.structs.push(Struct::new(name, fields));
    proof {
        assert(file.structs@.drop_last() =~= filled.structs@.drop_last());
        assert(completed(filled, all, *file));
    }
    Ok(())
}

/// Hands `file` back where it has a function `main` that takes no
/// argument and returns an `int`.
pub fn check_main(file: File) -> (r: TypResult<File>)
    ensures
        match main_error(file.funs@) {
            None => r is Ok && r->Ok_0 == file,
            Some(error) => r is Err && r->Err_0 == error,
        },
{
    let mut i: usize = 0;
    while i < file.funs.len()
        invariant
            i <= file.funs@.len(),
            main_index(file.funs@, 0) == main_index(file.funs@, i as int),
        decreases file.funs@.len() - i,
    {
        if file.funs[i].signature.name.id == MAIN {
            let signature = &file.funs[i].signature;
            if signature.typ != Typ::TInt || signature.args.len() != 0 {
                return Err(TypError::WrongMainFunctionSignature);
            }
            return Ok(file);
        }
        i = i + 1;
    }
    Err(TypError::MissingMainFunction)
}

/// Types a whole file in the context `context`: its structs, then its
/// functions, each in the order of the file. The program must have a
/// function `main` that takes no argument and returns an `int`.
pub fn typ_file(context: FileContext, file: &parser::File) -> (r: TypResult<File>)
    requires
        counted(context),
    ensures
        match r {
            Ok(typed) => file_ok(context, *file, typed),
            Err(error) => file_err(context, *file, error),
        },
{
    let mut current = context;
    let mut i: usize = 0;
    while i < file.structs.len()
        invariant
            i <= file.structs@.len(),
            counted(current),
            forall|fe: FileContext| #[trigger]
                structs_ok(current, file.structs@, i as int, fe) ==> structs_ok(
                    context,
                    file.structs@,
                    0,
                    fe,
                ),
            forall|error: TypError| #[trigger]
                structs_err(current, file.structs@, i as int, error) ==> structs_err(
                    context,
                    file.structs@,
                    0,
                    error,
                ),
        decreases file.structs@.len() - i,
    {
        let ghost here = current;
        match typ_struct(&mut current, &file.structs[i]) {
            Ok(_) => {},
            Err(error) => {
                proof {
                    assert(structs_err(here, file.structs@, i as int, error));
                }
                return Err(error);
            },
        }
        proof {
            assert forall|fe: FileContext| #[trigger]
                structs_ok(current, file.structs@, i + 1, fe) implies structs_ok(
                here,
                file.structs@,
                i as int,
                fe,
            ) by {
                assert(struct_ok(here, file.structs@[i as int], current));
            }
            assert forall|error: TypError| #[trigger]
                structs_err(current, file.structs@, i + 1, error) implies structs_err(
                here,
                file.structs@,
                i as int,
                error,
            ) by {
                assert(struct_ok(here, file.structs@[i as int], current));
            }
        }
        i = i + 1;
    }
    let ghost known = current;
    proof {
        assert(structs_ok(known, file.structs@, file.structs@.len() as int, known));
    }
    let mut funs: Vec<Fun> = Vec::new();
    let mut j: usize = 0;
    while j < file.funs.len()
        invariant
            j <= file.funs@.len(),
            funs@.len() == j,
            counted(current),
            structs_ok(context, file.structs@, 0, known),
            forall|typed: Seq<Fun>, fe: FileContext| #[trigger]
                funs_ok(current, file.funs@, j as int, typed, fe) && typed.len()
                    == file.funs@.len() && typed.take(j as int) == funs@ ==> funs_ok(
                    known,
                    file.funs@,
                    0,
                    typed,
                    fe,
                ),
            forall|error: TypError| #[trigger]
                funs_err(current, file.funs@, j as int, error) ==> funs_err(
                    known,
                    file.funs@,
                    0,
                    error,
                ),
        decreases file.funs@.len() - j,
    {
        let ghost here = current;
        let ghost done = funs@;
        let fun = match typ_fun(&mut current, &file.funs[j]) {
            Ok(fun) => fun,
            Err(error) => {
                proof {
                    assert(funs_err(here, file.funs@, j as int, error));
                }
                return Err(error);
            },
        };
        funs.push(fun);
        proof {
            assert forall|typed: Seq<Fun>, fe: FileContext| #[trigger]
                funs_ok(current, file.funs@, j + 1, typed, fe) && typed.len() == file.funs@.len()
                    && typed.take(j + 1) == funs@ implies funs_ok(
                here,
                file.funs@,
                j as int,
                typed,
                fe,
            ) && typed.take(j as int) == done by {
                assert(funs@[j as int] == fun);
                assert(typed.take(j + 1)[j as int] == typed[j as int]);
                assert(fun_ok(here, file.funs@[j as int], typed[j as int], current));
                assert(typed.take(j as int) =~= typed.take(j + 1).take(j as int));
                assert(funs@.take(j as int) =~= done);
            }
            assert forall|error: TypError| #[trigger]
                funs_err(current, file.funs@, j + 1, error) implies funs_err(
                here,
                file.funs@,
                j as int,
                error,
            ) by {
                assert(fun_ok(here, file.funs@[j as int], fun, current));
            }
        }
        j = j + 1;
    }
    let ghost all = funs@;
    let ghost done = current;
    proof {
        assert(all.take(j as int) =~= all);
        assert(funs_ok(done, file.funs@, j as int, all, done));
        assert(funs_ok(known, file.funs@, 0, all, done));
    }
    let typed = File::new(funs, current.structs, current.names);
    check_main(typed)
}

} // verus!

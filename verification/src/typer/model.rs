use crate::common::Ident;
use crate::parser::structure as parser;
use crate::typer::context::{
    field_of, name_index, signature_index, struct_index, FileContext, FunctionContext,
    ParentContext,
};
use crate::typer::error::{IncompatibleTyp, TypError};
use crate::typer::structure::{Binop, BlockIdent, Expr, ExprNode, Field, Formal, Typ, Unop};
use vstd::prelude::*;

verus! {

/// A value of the type `second` can stand where one of the type `first` is
/// expected: the types are the same, or one is that of the constant 0 and
/// the other `int` or a struct, or one is `void *` and the other a struct.
pub open spec fn typed_as_model(first: Typ, second: Typ) -> bool {
    first == second || match (first, second) {
        (Typ::TTypeNull, Typ::TInt) => true,
        (Typ::TInt, Typ::TTypeNull) => true,
        (Typ::TTypeNull, Typ::TStruct(_)) => true,
        (Typ::TStruct(_), Typ::TTypeNull) => true,
        (Typ::TVoidStar, Typ::TStruct(_)) => true,
        (Typ::TStruct(_), Typ::TVoidStar) => true,
        _ => false,
    }
}

/// The name spelt `name`, if it is in the name table.
pub open spec fn ident_model(file: FileContext, name: Seq<char>) -> Option<Ident> {
    match name_index(file.names@, name, 0) {
        Some(index) => Some(Ident { id: index as u32 }),
        None => None,
    }
}

/// The variable spelt `name`, as it is scoped, with its type.
pub open spec fn var_model(file: FileContext, ctx: FunctionContext, name: Seq<char>) -> Option<
    (BlockIdent, Typ),
> {
    match ident_model(file, name) {
        Some(ident) => ctx.resolve(ident),
        None => None,
    }
}

/// The field spelt `name` of the struct named `structure`.
pub open spec fn field_model(file: FileContext, structure: Ident, name: Seq<char>) -> Option<
    Field,
> {
    match struct_index(file.structs@, structure, 0) {
        Some(index) => match ident_model(file, name) {
            Some(ident) => field_of(file.structs@[index].fields@, ident, 0),
            None => None,
        },
        None => None,
    }
}

/// The place of the function spelt `name` among the signatures.
pub open spec fn fun_model(file: FileContext, name: Seq<char>) -> Option<int> {
    match ident_model(file, name) {
        Some(ident) => signature_index(file.funs@, ident, 0),
        None => None,
    }
}

/// The place of the struct spelt `name` among the structs.
pub open spec fn struct_model(file: FileContext, name: Seq<char>) -> Option<int> {
    match ident_model(file, name) {
        Some(ident) => struct_index(file.structs@, ident, 0),
        None => None,
    }
}

/// The operator compares its operands.
pub open spec fn compares(op: Binop) -> bool {
    op == Binop::BEq || op == Binop::BNeq || op == Binop::BLt || op == Binop::BGt || op
        == Binop::BGe || op == Binop::BLe
}

/// The operator computes with its operands.
pub open spec fn computes(op: Binop) -> bool {
    op == Binop::BAdd || op == Binop::BSub || op == Binop::BMul || op == Binop::BDiv
}

/// The error `expected`, found `actual`.
pub open spec fn wrong(expected: Typ, actual: Typ) -> TypError {
    TypError::WrongExpressionTyp(IncompatibleTyp { expected, actual })
}

/// The first error in the arguments of the call `call` from the `i`-th on,
/// against `formals`: an argument that is ill-typed or not of the type of
/// its formal, or, once one of the two lists is through, that the other is
/// not.
pub open spec fn args_error(
    file: FileContext,
    ctx: FunctionContext,
    call: parser::Expr,
    formals: Seq<Formal>,
    i: nat,
) -> Option<TypError>
    decreases call, 0nat, call->ECall_1@.len() - i,
{
    match call {
        parser::Expr::ECall(_, args) => if i < args@.len() && i < formals.len() {
            match typ_of(file, ctx, args@[i as int]) {
                Ok(typ) => if typed_as_model(formals[i as int].typ, typ) {
                    args_error(file, ctx, call, formals, i + 1)
                } else {
                    Some(wrong(formals[i as int].typ, typ))
                },
                Err(error) => Some(error),
            }
        } else if i < args@.len() {
            Some(TypError::TooManyArguments)
        } else if i < formals.len() {
            Some(TypError::TooFewArguments)
        } else {
            None
        },
        _ => None,
    }
}

/// The type of `expr`, or what is wrong with it: the first error in the
/// order in which its parts are checked.
pub open spec fn typ_of(file: FileContext, ctx: FunctionContext, expr: parser::Expr) -> Result<
    Typ,
    TypError,
>
    decreases expr, 1nat, 0nat,
{
    match expr {
        parser::Expr::EConst(x) => Ok(
            if x == 0 {
                Typ::TTypeNull
            } else {
                Typ::TInt
            },
        ),
        parser::Expr::EVar(name) => match var_model(file, ctx, name@) {
            Some((_, typ)) => Ok(typ),
            None => Err(TypError::VariableDoesNotExist),
        },
        parser::Expr::EArrow(inner, field) => match typ_of(file, ctx, *inner) {
            Ok(Typ::TStruct(structure)) => match field_model(file, structure, field@) {
                Some(found) => Ok(found.typ),
                None => Err(TypError::FieldDoesntExist(structure)),
            },
            Ok(_) => Err(TypError::DereferenceNonStructPointer),
            Err(error) => Err(error),
        },
        parser::Expr::EAssign(target, value) => match typ_of(file, ctx, *value) {
            Ok(typ_2) => match *target {
                parser::Expr::EVar(name) => match var_model(file, ctx, name@) {
                    Some((_, typ_1)) => if typed_as_model(typ_1, typ_2) {
                        Ok(typ_1)
                    } else {
                        Err(TypError::VariableDoesNotExist)
                    },
                    None => Err(TypError::VariableDoesNotExist),
                },
                parser::Expr::EArrow(inner, field) => match typ_of(file, ctx, *inner) {
                    Ok(Typ::TStruct(structure)) => match field_model(file, structure, field@) {
                        Some(found) => if typed_as_model(found.typ, typ_2) {
                            Ok(found.typ)
                        } else {
                            Err(TypError::FieldDoesntExist(structure))
                        },
                        None => Err(TypError::FieldDoesntExist(structure)),
                    },
                    Ok(typ) => Err(TypError::AccessingFieldOnNonStructTyp(typ)),
                    Err(error) => Err(error),
                },
                _ => Err(TypError::AssigningToNonAssignableExpression),
            },
            Err(error) => Err(error),
        },
        parser::Expr::EUnop(op, inner) => match typ_of(file, ctx, *inner) {
            Ok(typ) => if op == Unop::UNot || typed_as_model(typ, Typ::TInt) {
                Ok(Typ::TInt)
            } else {
                Err(wrong(Typ::TInt, typ))
            },
            Err(error) => Err(error),
        },
        parser::Expr::EBinop(op, first, second) => match typ_of(file, ctx, *first) {
            Ok(typ_1) => match typ_of(file, ctx, *second) {
                Ok(typ_2) => if compares(op) {
                    if typed_as_model(typ_1, typ_2) {
                        Ok(Typ::TInt)
                    } else {
                        Err(wrong(typ_1, typ_2))
                    }
                } else if computes(op) {
                    if !typed_as_model(typ_1, Typ::TInt) {
                        Err(wrong(Typ::TInt, typ_1))
                    } else if !typed_as_model(typ_2, Typ::TInt) {
                        Err(wrong(Typ::TInt, typ_2))
                    } else {
                        Ok(Typ::TInt)
                    }
                } else {
                    Ok(Typ::TInt)
                },
                Err(error) => Err(error),
            },
            Err(error) => Err(error),
        },
        parser::Expr::ECall(callee, _) => match *callee {
            parser::Expr::EVar(name) => match fun_model(file, name@) {
                Some(index) => match args_error(file, ctx, expr, file.funs@[index].args@, 0) {
                    Some(error) => Err(error),
                    None => Ok(file.funs@[index].typ),
                },
                None => Err(TypError::FunctionDoesntExist),
            },
            _ => Err(TypError::CallingANonFunctionExpression),
        },
        parser::Expr::ESizeof(name) => match struct_model(file, name@) {
            Some(index) => if file.structs@[index].fields@.len() * 8 <= i64::MAX {
                Ok(Typ::TInt)
            } else {
                Err(TypError::TooMany)
            },
            None => Err(TypError::StructDoesNotExist),
        },
    }
}

/// `typed` is `expr` with its names resolved and its types worked out:
/// it has the type of `expr`, and its parts are those of `expr`, each
/// elaborated in turn.
pub open spec fn elaborates(
    file: FileContext,
    ctx: FunctionContext,
    expr: parser::Expr,
    typed: Expr,
) -> bool
    decreases expr,
{
    &&& typ_of(file, ctx, expr) == Ok::<Typ, TypError>(typed.typ)
    &&& match expr {
        parser::Expr::EConst(x) => typed.node == ExprNode::EConst(x),
        parser::Expr::EVar(name) => var_model(file, ctx, name@) is Some && typed.node
            == ExprNode::EAccessLocal(var_model(file, ctx, name@)->Some_0.0),
        parser::Expr::EArrow(inner, field) => match typed.node {
            ExprNode::EAccessField(target, found) => elaborates(file, ctx, *inner, *target)
                && target.typ is TStruct && Some(found) == field_model(
                file,
                target.typ->TStruct_0,
                field@,
            ),
            _ => false,
        },
        parser::Expr::EAssign(target, value) => match *target {
            parser::Expr::EVar(name) => match typed.node {
                ExprNode::EAssignLocal(ident, inner) => var_model(file, ctx, name@) is Some
                    && ident == var_model(file, ctx, name@)->Some_0.0 && elaborates(
                    file,
                    ctx,
                    *value,
                    *inner,
                ),
                _ => false,
            },
            parser::Expr::EArrow(object, field) => match typed.node {
                ExprNode::EAssignField(inner, found, assigned) => elaborates(
                    file,
                    ctx,
                    *object,
                    *inner,
                ) && elaborates(file, ctx, *value, *assigned) && inner.typ is TStruct && Some(found)
                    == field_model(file, inner.typ->TStruct_0, field@),
                _ => false,
            },
            _ => false,
        },
        parser::Expr::EUnop(op, inner) => match typed.node {
            ExprNode::EUnop(typed_op, typed_inner) => typed_op == op && elaborates(
                file,
                ctx,
                *inner,
                *typed_inner,
            ),
            _ => false,
        },
        parser::Expr::EBinop(op, first, second) => match typed.node {
            ExprNode::EBinop(typed_op, typed_first, typed_second) => typed_op == op && elaborates(
                file,
                ctx,
                *first,
                *typed_first,
            ) && elaborates(file, ctx, *second, *typed_second),
            _ => false,
        },
        parser::Expr::ECall(callee, args) => match (*callee, typed.node) {
            (parser::Expr::EVar(name), ExprNode::ECall(fun, typed_args)) => fun_model(
                file,
                name@,
            ) is Some && fun == file.funs@[fun_model(file, name@)->Some_0].name
                && typed_args@.len() == args@.len() && args@.len() == file.funs@[fun_model(
                file,
                name@,
            )->Some_0].args@.len() && forall|i: int|
                0 <= i < args@.len() ==> (#[trigger] typed_args@[i]).formal
                    == file.funs@[fun_model(file, name@)->Some_0].args@[i] && elaborates(
                    file,
                    ctx,
                    args@[i],
                    typed_args@[i].expr,
                ),
            _ => false,
        },
        parser::Expr::ESizeof(name) => struct_model(file, name@) is Some && typed.node
            == ExprNode::EConst(
            (file.structs@[struct_model(file, name@)->Some_0].fields@.len() * 8) as i64,
        ),
    }
}

} // verus!

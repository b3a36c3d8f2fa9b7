use crate::common::{Ident, MAIN};
use crate::parser::structure as parser;
use crate::typer::context::{
    field_of, intern_model, interned, signature_index, struct_index, FileContext,
    FunctionContext,
};
use crate::typer::error::{DuplicateFieldName, TypError};
use crate::typer::model::{elaborates, struct_model, typ_of, typed_as_model, wrong};
use crate::typer::structure::{Block, BlockIdent, Field, File, Formal, Fun, Stmt, Typ};
use vstd::prelude::*;

verus! {

/// The name table has no more names than there are ordinals.
pub open spec fn counted(file: FileContext) -> bool {
    file.names@.len() <= u32::MAX
}

/// What typing a statement or a declaration may change: the name table
/// grows and stays counted, and the structs and signatures stay.
pub open spec fn carried(before: FileContext, after: FileContext) -> bool {
    &&& counted(after)
    &&& before.names@.len() <= after.names@.len()
    &&& after.structs == before.structs
    &&& after.funs == before.funs
}

/// What typing a statement leaves of the function's context: all but the
/// locals and the number of blocks.
pub open spec fn settled(before: FunctionContext, after: FunctionContext) -> bool {
    &&& after.name == before.name
    &&& after.typ == before.typ
    &&& after.arguments == before.arguments
    &&& after.scopes@.len() == before.scopes@.len()
}

/// The source type as a type of the typed program; a struct must be
/// declared.
pub open spec fn typ_model(file: FileContext, typ: parser::Typ) -> Result<Typ, TypError> {
    match typ {
        parser::Typ::TInt => Ok(Typ::TInt),
        parser::Typ::TStruct(name) => match struct_model(file, name@) {
            Some(index) => Ok(Typ::TStruct(file.structs@[index].name)),
            None => Err(TypError::StructDoesNotExist),
        },
    }
}

/// `ident` is the name of one of `vars`.
pub open spec fn declared_in(vars: Seq<(Ident, Typ)>, ident: Ident) -> bool {
    exists|k: int| 0 <= k < vars.len() && (#[trigger] vars[k]).0 == ident
}

/// What the declarations of a block give, from the one at `i` on, when
/// `acc` holds the variables declared before: the variables with their
/// types, in the order of the block, or the first error. The type of a
/// variable must be declared, and no name stands twice in a block.
pub open spec fn declares(
    before: FileContext,
    vars: Seq<parser::Formal>,
    i: int,
    acc: Seq<(Ident, Typ)>,
    r: Result<Seq<(Ident, Typ)>, TypError>,
    after: FileContext,
) -> bool
    decreases vars.len() - i,
{
    if i < 0 || i >= vars.len() {
        r == Ok::<Seq<(Ident, Typ)>, TypError>(acc) && after == before
    } else {
        match typ_model(before, vars[i].typ) {
            Err(error) => r == Err::<Seq<(Ident, Typ)>, TypError>(error),
            Ok(typ) => match intern_model(before, vars[i].name@) {
                None => r == Err::<Seq<(Ident, Typ)>, TypError>(TypError::TooMany),
                Some(ident) => if declared_in(acc, ident) {
                    r == Err::<Seq<(Ident, Typ)>, TypError>(TypError::DuplicateVarName(ident))
                } else {
                    exists|next: FileContext|
                        #![trigger interned(before, vars[i].name@, next)]
                        interned(before, vars[i].name@, next) && declares(
                            next,
                            vars,
                            i + 1,
                            acc.push((ident, typ)),
                            r,
                            after,
                        )
                },
            },
        }
    }
}

/// `inside` is the context `outside` within a block that opens with the
/// variables `vars`: the block gets the next index, its variables are
/// added to the locals under that index, and it is the innermost scope.
pub open spec fn opened(
    outside: FunctionContext,
    vars: Seq<(Ident, Typ)>,
    inside: FunctionContext,
) -> bool {
    &&& outside.block_counter < 255
    &&& inside.name == outside.name
    &&& inside.typ == outside.typ
    &&& inside.arguments == outside.arguments
    &&& inside.block_counter == outside.block_counter + 1
    &&& inside.locals@ == outside.locals@ + Seq::new(
        vars.len(),
        |k: int| BlockIdent::Local(outside.block_counter, vars[k].0),
    )
    &&& inside.scopes@.len() == outside.scopes@.len() + 1
    &&& inside.scopes@.drop_last() == outside.scopes@
    &&& inside.scopes@.last().index == outside.block_counter
    &&& inside.scopes@.last().vars@ == vars
}

/// `outside` is the context `inside` once the innermost block has closed:
/// its scope is gone, its locals stay.
pub open spec fn left(inside: FunctionContext, outside: FunctionContext) -> bool {
    &&& outside.name == inside.name
    &&& outside.typ == inside.typ
    &&& outside.arguments == inside.arguments
    &&& outside.block_counter == inside.block_counter
    &&& outside.locals == inside.locals
    &&& inside.scopes@.len() > 0
    &&& outside.scopes@ == inside.scopes@.drop_last()
}

/// Typing `stmt` in `file` and `ctx` succeeds with `typed`, and leaves
/// `after` and `then`. A condition, an expression and a returned value are
/// elaborated; a returned value goes with the type of the function; the
/// parts of a statement are typed in turn.
pub open spec fn stmt_ok(
    file: FileContext,
    ctx: FunctionContext,
    stmt: parser::Stmt,
    typed: Stmt,
    after: FileContext,
    then: FunctionContext,
) -> bool
    decreases stmt, 0nat, 0nat,
{
    match stmt {
        parser::Stmt::SSkip => typed is SSkip && after == file && then == ctx,
        parser::Stmt::SExpr(expr) => typed is SExpr && elaborates(
            file,
            ctx,
            expr,
            typed->SExpr_0,
        ) && after == file && then == ctx,
        parser::Stmt::SIf(expr, first, second) => typed is SIf && elaborates(
            file,
            ctx,
            expr,
            typed->SIf_0,
        ) && exists|mid: FileContext, between: FunctionContext|
            #![trigger carried(file, mid), settled(ctx, between)]
            carried(file, mid) && settled(ctx, between) && stmt_ok(
                file,
                ctx,
                *first,
                *typed->SIf_1,
                mid,
                between,
            ) && stmt_ok(mid, between, *second, *typed->SIf_2, after, then),
        parser::Stmt::SWhile(expr, body) => typed is SWhile && elaborates(
            file,
            ctx,
            expr,
            typed->SWhile_0,
        ) && stmt_ok(file, ctx, *body, *typed->SWhile_1, after, then),
        parser::Stmt::SBlock(block) => typed is SBlock && block_ok(
            file,
            ctx,
            block,
            typed->SBlock_0,
            after,
            then,
        ),
        parser::Stmt::SReturn(expr) => typed is SReturn && elaborates(
            file,
            ctx,
            expr,
            typed->SReturn_0,
        ) && typed_as_model(typed->SReturn_0.typ, ctx.typ) && after == file && then == ctx,
    }
}

/// Typing `stmt` in `file` and `ctx` fails with `error`: the error of the
/// first part that is ill-typed.
pub open spec fn stmt_err(
    file: FileContext,
    ctx: FunctionContext,
    stmt: parser::Stmt,
    error: TypError,
) -> bool
    decreases stmt, 0nat, 0nat,
{
    match stmt {
        parser::Stmt::SSkip => false,
        parser::Stmt::SExpr(expr) => typ_of(file, ctx, expr) == Err::<Typ, TypError>(error),
        parser::Stmt::SIf(expr, first, second) => match typ_of(file, ctx, expr) {
            Err(found) => error == found,
            Ok(_) => stmt_err(file, ctx, *first, error) || exists|
                typed: Stmt,
                mid: FileContext,
                between: FunctionContext,
            |
                #![trigger stmt_ok(file, ctx, *first, typed, mid, between)]
                stmt_ok(file, ctx, *first, typed, mid, between) && stmt_err(
                    mid,
                    between,
                    *second,
                    error,
                ),
        },
        parser::Stmt::SWhile(expr, body) => match typ_of(file, ctx, expr) {
            Err(found) => error == found,
            Ok(_) => stmt_err(file, ctx, *body, error),
        },
        parser::Stmt::SBlock(block) => block_err(file, ctx, block, error),
        parser::Stmt::SReturn(expr) => match typ_of(file, ctx, expr) {
            Err(found) => error == found,
            Ok(typ) => !typed_as_model(typ, ctx.typ) && error == wrong(ctx.typ, typ),
        },
    }
}

/// Typing the statements of `block` from the one at `j` on succeeds with
/// those of `typed` from `j` on.
pub open spec fn stmts_ok(
    file: FileContext,
    ctx: FunctionContext,
    block: parser::Block,
    j: int,
    typed: Seq<Stmt>,
    after: FileContext,
    then: FunctionContext,
) -> bool
    decreases block, 1nat, block.stmts@.len() - j,
{
    if j < 0 || j >= block.stmts@.len() || j >= typed.len() {
        after == file && then == ctx
    } else {
        exists|mid: FileContext, between: FunctionContext|
            #![trigger carried(file, mid), settled(ctx, between)]
            carried(file, mid) && settled(ctx, between) && stmt_ok(
                file,
                ctx,
                block.stmts@[j],
                typed[j],
                mid,
                between,
            ) && stmts_ok(mid, between, block, j + 1, typed, after, then)
    }
}

/// Typing the statements of `block` from the one at `j` on fails with
/// `error`: the error of the first statement that is ill-typed.
pub open spec fn stmts_err(
    file: FileContext,
    ctx: FunctionContext,
    block: parser::Block,
    j: int,
    error: TypError,
) -> bool
    decreases block, 1nat, block.stmts@.len() - j,
{
    if j < 0 || j >= block.stmts@.len() {
        false
    } else {
        stmt_err(file, ctx, block.stmts@[j], error) || exists|
            typed: Stmt,
            mid: FileContext,
            between: FunctionContext,
        |
            #![trigger stmt_ok(file, ctx, block.stmts@[j], typed, mid, between)]
            stmt_ok(file, ctx, block.stmts@[j], typed, mid, between) && stmts_err(
                mid,
                between,
                block,
                j + 1,
                error,
            )
    }
}

/// Typing `block` succeeds with `typed`: its declarations give its
/// variables, it opens with them, its statements are typed in turn, and it
/// closes.
pub open spec fn block_ok(
    file: FileContext,
    ctx: FunctionContext,
    block: parser::Block,
    typed: Block,
    after: FileContext,
    then: FunctionContext,
) -> bool
    decreases block, 2nat, 0nat,
{
    exists|
        vars: Seq<(Ident, Typ)>,
        declared: FileContext,
        inside: FunctionContext,
        last: FunctionContext,
    |
        #![trigger declares(file, block.vars@, 0, Seq::empty(), Ok(vars), declared), opened(ctx, vars, inside), left(last, then)]
        {
            &&& declares(file, block.vars@, 0, Seq::empty(), Ok(vars), declared)
            &&& opened(ctx, vars, inside)
            &&& typed.stmts@.len() == block.stmts@.len()
            &&& stmts_ok(declared, inside, block, 0, typed.stmts@, after, last)
            &&& left(last, then)
        }
}

/// Typing `block` fails with `error`: the error of its declarations,
/// `TooMany` where no index is left for it, or the error of its first
/// ill-typed statement.
pub open spec fn block_err(
    file: FileContext,
    ctx: FunctionContext,
    block: parser::Block,
    error: TypError,
) -> bool
    decreases block, 2nat, 0nat,
{
    ||| exists|declared: FileContext|
        #![trigger declares(file, block.vars@, 0, Seq::empty(), Err(error), declared)]
        declares(file, block.vars@, 0, Seq::empty(), Err(error), declared)
    ||| exists|vars: Seq<(Ident, Typ)>, declared: FileContext|
        #![trigger declares(file, block.vars@, 0, Seq::empty(), Ok(vars), declared)]
        declares(file, block.vars@, 0, Seq::empty(), Ok(vars), declared) && ctx.block_counter
            == 255 && error == TypError::TooMany
    ||| exists|vars: Seq<(Ident, Typ)>, declared: FileContext, inside: FunctionContext|
        #![trigger declares(file, block.vars@, 0, Seq::empty(), Ok(vars), declared), opened(ctx, vars, inside)]
        declares(file, block.vars@, 0, Seq::empty(), Ok(vars), declared) && opened(
            ctx,
            vars,
            inside,
        ) && stmts_err(declared, inside, block, 0, error)
}

/// `formal` is the argument named `ident`.
pub open spec fn names_argument(formal: Formal, ident: Ident) -> bool {
    match formal.name {
        BlockIdent::Arg(_, name) => name == ident,
        BlockIdent::Local(_, _) => false,
    }
}

/// An argument named `ident` is among `args`.
pub open spec fn named_in(args: Seq<Formal>, ident: Ident) -> bool {
    exists|k: int| 0 <= k < args.len() && #[trigger] names_argument(args[k], ident)
}

/// What the arguments of a function give, from the one at `i` on, when
/// `acc` holds those before: the arguments with their types, each under its
/// place, or the first error. No name stands twice, and the type of an
/// argument must be declared.
pub open spec fn binds(
    before: FileContext,
    args: Seq<parser::Formal>,
    i: int,
    acc: Seq<Formal>,
    r: Result<Seq<Formal>, TypError>,
    after: FileContext,
) -> bool
    decreases args.len() - i,
{
    if i < 0 || i >= args.len() {
        r == Ok::<Seq<Formal>, TypError>(acc) && after == before
    } else {
        match intern_model(before, args[i].name@) {
            None => r == Err::<Seq<Formal>, TypError>(TypError::TooMany),
            Some(name) => if named_in(acc, name) {
                r == Err::<Seq<Formal>, TypError>(TypError::DuplicateArgName(name))
            } else {
                exists|next: FileContext|
                    #![trigger interned(before, args[i].name@, next)]
                    interned(before, args[i].name@, next) && match typ_model(next, args[i].typ) {
                        Err(error) => r == Err::<Seq<Formal>, TypError>(error),
                        Ok(typ) => binds(
                            next,
                            args,
                            i + 1,
                            acc.push(Formal { name: BlockIdent::Arg(i as usize, name), typ }),
                            r,
                            after,
                        ),
                    }
            },
        }
    }
}

/// `after` is `before` with the signature of a function at the end of its
/// signatures.
pub open spec fn signed(
    before: FileContext,
    name: Ident,
    typ: Typ,
    args: Seq<Formal>,
    after: FileContext,
) -> bool {
    &&& after.names == before.names
    &&& after.structs == before.structs
    &&& after.funs@.len() == before.funs@.len() + 1
    &&& after.funs@.drop_last() == before.funs@
    &&& after.funs@.last().name == name
    &&& after.funs@.last().typ == typ
    &&& after.funs@.last().args@ == args
}

/// `ctx` is the context at the start of the body of a function: no block
/// is open and no local is declared.
pub open spec fn starts(ctx: FunctionContext, name: Ident, typ: Typ, args: Seq<Formal>) -> bool {
    &&& ctx.name == name
    &&& ctx.typ == typ
    &&& ctx.block_counter == 1
    &&& ctx.arguments@ == args
    &&& ctx.locals@.len() == 0
    &&& ctx.scopes@.len() == 0
}

/// Typing `fun` in `file` succeeds with `typed` and leaves `after`: its
/// name is new among the functions, its signature is added before its body
/// is typed, and its locals are those that its blocks declare.
pub open spec fn fun_ok(file: FileContext, fun: parser::Fun, typed: Fun, after: FileContext) -> bool {
    exists|
        named: FileContext,
        bound: FileContext,
        known: FileContext,
        ctx: FunctionContext,
        then: FunctionContext,
    |
        #![trigger interned(file, fun.profile.name@, named), signed(bound, typed.signature.name, typed.signature.typ, typed.signature.args@, known), settled(ctx, then)]
        {
            &&& settled(ctx, then)
            &&& typ_model(file, fun.profile.typ) == Ok::<Typ, TypError>(typed.signature.typ)
            &&& intern_model(file, fun.profile.name@) == Some(typed.signature.name)
            &&& interned(file, fun.profile.name@, named)
            &&& binds(named, fun.args@, 0, Seq::empty(), Ok(typed.signature.args@), bound)
            &&& signature_index(bound.funs@, typed.signature.name, 0) is None
            &&& signed(
                bound,
                typed.signature.name,
                typed.signature.typ,
                typed.signature.args@,
                known,
            )
            &&& starts(ctx, typed.signature.name, typed.signature.typ, typed.signature.args@)
            &&& block_ok(known, ctx, fun.body, typed.block, after, then)
            &&& typed.locals@ == then.locals@
        }
}

/// Typing `fun` in `file` fails with `error`.
pub open spec fn fun_err(file: FileContext, fun: parser::Fun, error: TypError) -> bool {
    match typ_model(file, fun.profile.typ) {
        Err(found) => error == found,
        Ok(typ) => match intern_model(file, fun.profile.name@) {
            None => error == TypError::TooMany,
            Some(name) => exists|
                named: FileContext,
                bound: FileContext,
                br: Result<Seq<Formal>, TypError>,
            |
                #![trigger interned(file, fun.profile.name@, named), binds(named, fun.args@, 0, Seq::empty(), br, bound)]
                interned(file, fun.profile.name@, named) && binds(
                    named,
                    fun.args@,
                    0,
                    Seq::empty(),
                    br,
                    bound,
                ) && match br {
                    Err(found) => error == found,
                    Ok(args) => if signature_index(bound.funs@, name, 0) is Some {
                        error == TypError::DuplicateFunName(name)
                    } else {
                        exists|known: FileContext, ctx: FunctionContext|
                            #![trigger signed(bound, name, typ, args, known), starts(ctx, name, typ, args)]
                            signed(bound, name, typ, args, known) && starts(ctx, name, typ, args)
                                && block_err(known, ctx, fun.body, error)
                    },
                },
        },
    }
}

/// What the fields of the struct named `owner` give, from the one at `i`
/// on, when `acc` holds those before: the fields with their types, each
/// under its place, or the first error. A struct has at most 256 fields, no
/// name stands twice, and the type of a field must be declared.
pub open spec fn fills(
    before: FileContext,
    owner: Ident,
    fields: Seq<parser::Formal>,
    i: int,
    acc: Seq<Field>,
    r: Result<Seq<Field>, TypError>,
    after: FileContext,
) -> bool
    decreases fields.len() - i,
{
    if i < 0 || i >= fields.len() {
        r == Ok::<Seq<Field>, TypError>(acc) && after == before
    } else if i > 255 {
        r == Err::<Seq<Field>, TypError>(TypError::TooMany)
    } else {
        match intern_model(before, fields[i].name@) {
            None => r == Err::<Seq<Field>, TypError>(TypError::TooMany),
            Some(name) => if field_of(acc, name, 0) is Some {
                r == Err::<Seq<Field>, TypError>(
                    TypError::DuplicateFieldName(
                        DuplicateFieldName { struct_name: owner, field_name: name },
                    ),
                )
            } else {
                exists|next: FileContext|
                    #![trigger interned(before, fields[i].name@, next)]
                    interned(before, fields[i].name@, next) && match typ_model(
                        next,
                        fields[i].typ,
                    ) {
                        Err(error) => r == Err::<Seq<Field>, TypError>(error),
                        Ok(typ) => fills(
                            next,
                            owner,
                            fields,
                            i + 1,
                            acc.push(Field { name, index: i as u8, typ }),
                            r,
                            after,
                        ),
                    }
            },
        }
    }
}

/// `after` is `before` with a struct named `name` that has the fields
/// `fields` at the end of its structs.
pub open spec fn with_struct(
    before: FileContext,
    name: Ident,
    fields: Seq<Field>,
    after: FileContext,
) -> bool {
    &&& after.names == before.names
    &&& after.funs == before.funs
    &&& after.structs@.len() == before.structs@.len() + 1
    &&& after.structs@.drop_last() == before.structs@
    &&& after.structs@.last().name == name
    &&& after.structs@.last().fields@ == fields
}

/// `after` is `before` but that its last struct has the fields `fields`.
pub open spec fn completed(before: FileContext, fields: Seq<Field>, after: FileContext) -> bool {
    &&& after.names == before.names
    &&& after.funs == before.funs
    &&& before.structs@.len() > 0
    &&& after.structs@.len() == before.structs@.len()
    &&& after.structs@.drop_last() == before.structs@.drop_last()
    &&& after.structs@.last().name == before.structs@.last().name
    &&& after.structs@.last().fields@ == fields
}

/// Typing `structure` in `file` succeeds and leaves `after`: its name is
/// new among the structs, and it is declared, without fields, while its
/// fields are typed, so that they may point to it.
pub open spec fn struct_ok(file: FileContext, structure: parser::Struct, after: FileContext) -> bool {
    exists|
        name: Ident,
        named: FileContext,
        known: FileContext,
        fields: Seq<Field>,
        filled: FileContext,
    |
        #![trigger interned(file, structure.name@, named), with_struct(named, name, Seq::empty(), known), completed(filled, fields, after)]
        {
            &&& intern_model(file, structure.name@) == Some(name)
            &&& interned(file, structure.name@, named)
            &&& struct_index(named.structs@, name, 0) is None
            &&& with_struct(named, name, Seq::empty(), known)
            &&& fills(known, name, structure.fields@, 0, Seq::empty(), Ok(fields), filled)
            &&& completed(filled, fields, after)
        }
}

/// Typing `structure` in `file` fails with `error`.
pub open spec fn struct_err(file: FileContext, structure: parser::Struct, error: TypError) -> bool {
    match intern_model(file, structure.name@) {
        None => error == TypError::TooMany,
        Some(name) => exists|named: FileContext|
            #![trigger interned(file, structure.name@, named)]
            interned(file, structure.name@, named) && if struct_index(named.structs@, name, 0)
                is Some {
                error == TypError::DuplicateStructName(name)
            } else {
                exists|known: FileContext, filled: FileContext|
                    #![trigger with_struct(named, name, Seq::empty(), known), fills(known, name, structure.fields@, 0, Seq::empty(), Err(error), filled)]
                    with_struct(named, name, Seq::empty(), known) && fills(
                        known,
                        name,
                        structure.fields@,
                        0,
                        Seq::empty(),
                        Err(error),
                        filled,
                    )
            },
    }
}

/// Typing the structs of `structs` from the one at `i` on succeeds and
/// leaves `after`.
pub open spec fn structs_ok(
    before: FileContext,
    structs: Seq<parser::Struct>,
    i: int,
    after: FileContext,
) -> bool
    decreases structs.len() - i,
{
    if i < 0 || i >= structs.len() {
        after == before
    } else {
        exists|next: FileContext|
            #![trigger struct_ok(before, structs[i], next)]
            struct_ok(before, structs[i], next) && structs_ok(next, structs, i + 1, after)
    }
}

/// Typing the structs of `structs` from the one at `i` on fails with
/// `error`: the error of the first that is ill-typed.
pub open spec fn structs_err(
    before: FileContext,
    structs: Seq<parser::Struct>,
    i: int,
    error: TypError,
) -> bool
    decreases structs.len() - i,
{
    if i < 0 || i >= structs.len() {
        false
    } else {
        struct_err(before, structs[i], error) || exists|next: FileContext|
            #![trigger struct_ok(before, structs[i], next)]
            struct_ok(before, structs[i], next) && structs_err(next, structs, i + 1, error)
    }
}

/// Typing the functions of `funs` from the one at `j` on succeeds with
/// those of `typed` from `j` on, and leaves `after`.
pub open spec fn funs_ok(
    before: FileContext,
    funs: Seq<parser::Fun>,
    j: int,
    typed: Seq<Fun>,
    after: FileContext,
) -> bool
    decreases funs.len() - j,
{
    if j < 0 || j >= funs.len() || j >= typed.len() {
        after == before
    } else {
        exists|next: FileContext|
            #![trigger fun_ok(before, funs[j], typed[j], next)]
            fun_ok(before, funs[j], typed[j], next) && funs_ok(next, funs, j + 1, typed, after)
    }
}

/// Typing the functions of `funs` from the one at `j` on fails with
/// `error`: the error of the first that is ill-typed.
pub open spec fn funs_err(
    before: FileContext,
    funs: Seq<parser::Fun>,
    j: int,
    error: TypError,
) -> bool
    decreases funs.len() - j,
{
    if j < 0 || j >= funs.len() {
        false
    } else {
        fun_err(before, funs[j], error) || exists|typed: Fun, next: FileContext|
            #![trigger fun_ok(before, funs[j], typed, next)]
            fun_ok(before, funs[j], typed, next) && funs_err(next, funs, j + 1, error)
    }
}

/// The place of the function named `main` in `file`.
pub open spec fn main_index(funs: Seq<Fun>, from: int) -> Option<int>
    decreases funs.len() - from,
{
    if from < 0 || from >= funs.len() {
        None
    } else if funs[from].signature.name.id == MAIN {
        Some(from)
    } else {
        main_index(funs, from + 1)
    }
}

/// What is wrong with the function `main` among `funs`, if anything: it is
/// missing, or it takes arguments or does not return an `int`.
pub open spec fn main_error(funs: Seq<Fun>) -> Option<TypError> {
    match main_index(funs, 0) {
        Some(index) => if funs[index].signature.typ == Typ::TInt
            && funs[index].signature.args@.len() == 0 {
            None
        } else {
            Some(TypError::WrongMainFunctionSignature)
        },
        None => Some(TypError::MissingMainFunction),
    }
}

/// Typing `file` in `context` succeeds with `typed`: its structs are typed
/// in turn, then its functions, and it has a proper `main`.
pub open spec fn file_ok(context: FileContext, file: parser::File, typed: File) -> bool {
    exists|known: FileContext, done: FileContext|
        #![trigger structs_ok(context, file.structs@, 0, known), funs_ok(known, file.funs@, 0, typed.funs@, done)]
        {
            &&& structs_ok(context, file.structs@, 0, known)
            &&& typed.funs@.len() == file.funs@.len()
            &&& funs_ok(known, file.funs@, 0, typed.funs@, done)
            &&& typed.structs == done.structs
            &&& typed.names == done.names
            &&& main_error(typed.funs@) is None
        }
}

/// Typing `file` in `context` fails with `error`: the error of the first
/// struct or function that is ill-typed, or what is wrong with `main`.
pub open spec fn file_err(context: FileContext, file: parser::File, error: TypError) -> bool {
    ||| structs_err(context, file.structs@, 0, error)
    ||| exists|known: FileContext|
        #![trigger structs_ok(context, file.structs@, 0, known)]
        structs_ok(context, file.structs@, 0, known) && funs_err(known, file.funs@, 0, error)
    ||| exists|known: FileContext, typed: Seq<Fun>, done: FileContext|
        #![trigger structs_ok(context, file.structs@, 0, known), funs_ok(known, file.funs@, 0, typed, done)]
        structs_ok(context, file.structs@, 0, known) && typed.len() == file.funs@.len()
            && funs_ok(known, file.funs@, 0, typed, done) && main_error(typed) == Some(error)
}

} // verus!

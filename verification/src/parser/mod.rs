pub mod error;
pub mod model;
pub mod structure;
pub mod view;

use crate::common::Value;
use crate::lexer::{lex, lex_model, Lexeme, Token};
use crate::parser::error::ParserError;
use crate::parser::model::{
    args_model, args_rest_model, assign_model, binary_model, binary_rest_model, binop_model,
    block_model, decl_fun_model, decl_struct_model, decl_var_model, decls_model, expr_model,
    expr_stmt_model, fields_model, file_model, formal_model, formals_of, formals_rest_model,
    ident_model, integer_model, is, items_model, iteration_model, jump_model, name_model,
    names_rest_model, operand_model, postfix_model, primary_model, rest, selection_model,
    sizeof_model, stmt_model, suffixes_model, tok, unary_model, unop_model, Parsed,
};
use crate::parser::structure::{Binop, Block, Expr, File, Formal, Fun, Stmt, Struct, Typ, Unop};
use crate::parser::view::{
    exprs_view, formals_view, stmt_view, stmts_view, BlockView, ExprView, FileView, FormalView,
    StmtView, TypView,
};
use vstd::prelude::*;
use vstd::string::StringSliceAdditionalSpecFns;

verus! {

pub type ParserResult<T> = Result<T, ParserError>;

/// The tokens are few enough for places after them to be counted.
pub open spec fn countable(toks: Seq<Lexeme>) -> bool {
    toks.len() < usize::MAX - 8
}

/// The bytes `src[start..end]`, all of them ASCII, as a string, by
/// `String::from_utf8_lossy`: the result has one character for each byte,
/// the character whose code the byte is.
#[verifier::external_body]
fn ascii_string(src: &[u8], start: usize, end: usize) -> (r: String)
    requires
        start <= end <= src@.len(),
        forall|i: int| start <= i < end ==> #[trigger] src@[i] < 128,
    ensures
        r@ == Seq::new((end - start) as nat, |i: int| src@[start + i] as char),
{
    String::from_utf8_lossy(&src[start..end]).into_owned()
}

/// The token at `p`, if there is one.
pub fn peek(toks: &Vec<Lexeme>, p: usize) -> (r: Option<Token>)
    ensures
        r == tok(toks@, p as int),
{
    if p < toks.len() {
        Some(toks[p].token)
    } else {
        None
    }
}

/// Whether the token at `p` is `token`.
pub fn at(toks: &Vec<Lexeme>, p: usize, token: Token) -> (r: bool)
    ensures
        r == is(toks@, p as int, token),
{
    match peek(toks, p) {
        Some(found) => found == token,
        None => false,
    }
}

/// The spelling of `lexeme` in `src`.
pub fn name_of(src: &[u8], lexeme: &Lexeme) -> (r: Option<String>)
    ensures
        match name_model(src@, *lexeme) {
            Some(name) => r is Some && r->Some_0@ == name,
            None => r is None,
        },
{
    if lexeme.start > lexeme.end || lexeme.end > src.len() {
        return None;
    }
    let mut i = lexeme.start;
    while i < lexeme.end
        invariant
            lexeme.start <= i <= lexeme.end <= src@.len(),
            forall|k: int| lexeme.start <= k < i ==> #[trigger] src@[k] < 128,
        decreases lexeme.end - i,
    {
        if src[i] >= 128 {
            return None;
        }
        i = i + 1;
    }
    Some(ascii_string(src, lexeme.start, lexeme.end))
}

/// An identifier at `p`.
pub fn ident(src: &[u8], toks: &Vec<Lexeme>, p: usize) -> (r: Option<(String, usize)>)
    requires
        countable(toks@),
    ensures
        match ident_model(src@, toks@, p as int) {
            Some((name, q)) => r is Some && r->Some_0.0@ == name && r->Some_0.1 == q && p < q
                <= toks@.len(),
            None => r is None,
        },
{
    if at(toks, p, Token::Ident) {
        match name_of(src, &toks[p]) {
            Some(name) => Some((name, p + 1)),
            None => None,
        }
    } else {
        None
    }
}

/// A constant at `p`.
pub fn integer(toks: &Vec<Lexeme>, p: usize) -> (r: Option<(Value, usize)>)
    requires
        countable(toks@),
    ensures
        match integer_model(toks@, p as int) {
            Some((value, q)) => r == Some((value, q as usize)) && p < q <= toks@.len(),
            None => r is None,
        },
{
    match peek(toks, p) {
        Some(Token::HexConstant(x)) => Some((x as i64, p + 1)),
        Some(Token::DecimalConstant(x)) => Some((x as i64, p + 1)),
        Some(Token::OctalConstant(x)) => Some((x as i64, p + 1)),
        Some(Token::CharConstant(x)) => Some((x as i64, p + 1)),
        Some(Token::NewlineConstant) => Some((10, p + 1)),
        _ => None,
    }
}

/// The unary operator that `token` is.
pub fn unary_op(token: Option<Token>) -> (r: Option<Unop>)
    ensures
        r == unop_model(token),
{
    match token {
        Some(Token::Minus) => Some(Unop::UMinus),
        Some(Token::Bang) => Some(Unop::UNot),
        _ => None,
    }
}

/// The binary operator of the level `level` that `token` is.
pub fn binary_op(level: u8, token: Option<Token>) -> (r: Option<Binop>)
    ensures
        r == binop_model(level, token),
{
    match (level, token) {
        (0, Some(Token::Star)) => Some(Binop::BMul),
        (0, Some(Token::Div)) => Some(Binop::BDiv),
        (1, Some(Token::Plus)) => Some(Binop::BAdd),
        (1, Some(Token::Minus)) => Some(Binop::BSub),
        (2, Some(Token::Le)) => Some(Binop::BLe),
        (2, Some(Token::Lt)) => Some(Binop::BLt),
        (2, Some(Token::Ge)) => Some(Binop::BGe),
        (2, Some(Token::Gt)) => Some(Binop::BGt),
        (3, Some(Token::EqEq)) => Some(Binop::BEq),
        (3, Some(Token::BangEq)) => Some(Binop::BNeq),
        (4, Some(Token::AmpersandAmpersand)) => Some(Binop::BAnd),
        (5, Some(Token::VerticalBarVerticalBar)) => Some(Binop::BOr),
        _ => None,
    }
}

/// What a parser of expressions hands back is what the model gives.
pub open spec fn gives(toks: Seq<Lexeme>, model: Parsed<ExprView>, r: Option<(Expr, usize)>) -> bool {
    match model {
        Some((expr, q)) => r is Some && r->Some_0.0@ == expr && r->Some_0.1 == q && q
            <= toks.len(),
        None => r is None,
    }
}

/// What a parser of statements hands back is what the model gives.
pub open spec fn gives_stmt(toks: Seq<Lexeme>, model: Parsed<StmtView>, r: Option<(Stmt, usize)>) -> bool {
    match model {
        Some((stmt, q)) => r is Some && r->Some_0.0@ == stmt && r->Some_0.1 == q && q
            <= toks.len(),
        None => r is None,
    }
}

/// What a parser of formals hands back is what the model gives.
pub open spec fn gives_formals(
    toks: Seq<Lexeme>,
    model: Parsed<Seq<FormalView>>,
    r: Option<(Vec<Formal>, usize)>,
) -> bool {
    match model {
        Some((formals, q)) => r is Some && formals_view(r->Some_0.0@) == formals && r->Some_0.1
            == q && q <= toks.len(),
        None => r is None,
    }
}

/// An expression at `p`.
pub fn expr(src: &[u8], toks: &Vec<Lexeme>, p: usize) -> (r: Option<(Expr, usize)>)
    requires
        countable(toks@),
    ensures
        gives(toks@, expr_model(src@, toks@, p as int), r),
    decreases rest(toks@, p as int), 10nat, 0nat, 0nat,
{
    assign_expr(src, toks, p)
}

/// An expression of the loosest binary level at `p`.
pub fn cond_expr(src: &[u8], toks: &Vec<Lexeme>, p: usize) -> (r: Option<(Expr, usize)>)
    requires
        countable(toks@),
    ensures
        gives(toks@, binary_model(src@, toks@, 5, p as int), r),
    decreases rest(toks@, p as int), 8nat, 2nat, 0nat,
{
    binary_expr(src, toks, 5, p)
}

/// An assignment at `p`.
pub fn assign_expr(src: &[u8], toks: &Vec<Lexeme>, p: usize) -> (r: Option<(Expr, usize)>)
    requires
        countable(toks@),
    ensures
        gives(toks@, assign_model(src@, toks@, p as int), r),
    decreases rest(toks@, p as int), 9nat, 0nat, 0nat,
{
    match unary_expr(src, toks, p) {
        Some((target, q)) => {
            if at(toks, q, Token::Eq) && q >= p {
                match assign_expr(src, toks, q + 1) {
                    Some((value, r)) => {
                        return Some((Expr::EAssign(Box::new(target), Box::new(value)), r));
                    },
                    None => {},
                }
            }
        },
        None => {},
    }
    cond_expr(src, toks, p)
}

/// An operand of the binary level `level` at `p`.
pub fn operand(src: &[u8], toks: &Vec<Lexeme>, level: u8, p: usize) -> (r: Option<(Expr, usize)>)
    requires
        countable(toks@),
    ensures
        gives(toks@, operand_model(src@, toks@, level, p as int), r),
    decreases rest(toks@, p as int), 3 + level, 0nat, 0nat,
{
    if level == 0 {
        unary_expr(src, toks, p)
    } else if level <= 5 {
        binary_expr(src, toks, level - 1, p)
    } else {
        None
    }
}

/// An expression of the binary level `level` at `p`.
pub fn binary_expr(src: &[u8], toks: &Vec<Lexeme>, level: u8, p: usize) -> (r: Option<
    (Expr, usize),
>)
    requires
        countable(toks@),
    ensures
        gives(toks@, binary_model(src@, toks@, level, p as int), r),
    decreases rest(toks@, p as int), 3 + level, 1nat, 0nat,
{
    if level > 5 {
        return None;
    }
    let (first, start) = match operand(src, toks, level, p) {
        Some(found) => found,
        None => {
            return None;
        },
    };
    if !(start > p && p < toks.len()) {
        return None;
    }
    let mut acc = first;
    let mut q = start;
    loop
        invariant
            countable(toks@),
            level <= 5,
            p < q <= toks@.len(),
            binary_model(src@, toks@, level, p as int) == binary_rest_model(
                src@,
                toks@,
                level,
                q as int,
                acc@,
            ),
        decreases rest(toks@, q as int),
    {
        match binary_op(level, peek(toks, q)) {
            Some(op) => match operand(src, toks, level, q + 1) {
                Some((second, next)) => {
                    if next > q {
                        acc = Expr::EBinop(op, Box::new(acc), Box::new(second));
                        q = next;
                    } else {
                        return Some((acc, q));
                    }
                },
                None => {
                    return Some((acc, q));
                },
            },
            None => {
                return Some((acc, q));
            },
        }
    }
}

/// A unary expression at `p`.
pub fn unary_expr(src: &[u8], toks: &Vec<Lexeme>, p: usize) -> (r: Option<(Expr, usize)>)
    requires
        countable(toks@),
    ensures
        gives(toks@, unary_model(src@, toks@, p as int), r),
    decreases rest(toks@, p as int), 2nat, 0nat, 0nat,
{
    match postfix_expression(src, toks, p) {
        Some(found) => {
            return Some(found);
        },
        None => {},
    }
    match unary_op(peek(toks, p)) {
        Some(op) => match unary_expr(src, toks, p + 1) {
            Some((inner, q)) => {
                return Some((Expr::EUnop(op, Box::new(inner)), q));
            },
            None => {},
        },
        None => {},
    }
    sizeof_expr(src, toks, p)
}

/// `sizeof ( struct name )` at `p`.
pub fn sizeof_expr(src: &[u8], toks: &Vec<Lexeme>, p: usize) -> (r: Option<(Expr, usize)>)
    requires
        countable(toks@),
    ensures
        gives(toks@, sizeof_model(src@, toks@, p as int), r),
{
    if at(toks, p, Token::Sizeof) && at(toks, p + 1, Token::Lpar) && at(toks, p + 2, Token::Struct) {
        match ident(src, toks, p + 3) {
            Some((name, q)) => {
                if at(toks, q, Token::Rpar) {
                    Some((Expr::ESizeof(name), q + 1))
                } else {
                    None
                }
            },
            None => None,
        }
    } else {
        None
    }
}

/// A list of assignments at `p`, separated by commas.
pub fn arguments(src: &[u8], toks: &Vec<Lexeme>, p: usize) -> (r: Option<(Vec<Expr>, usize)>)
    requires
        countable(toks@),
    ensures
        match args_model(src@, toks@, p as int) {
            Some((args, q)) => r is Some && exprs_view(r->Some_0.0@) == args && r->Some_0.1 == q
                && (q <= toks@.len() || q == p) && q >= p,
            None => r is None,
        },
    decreases rest(toks@, p as int), 11nat, 0nat, 0nat,
{
    let mut list: Vec<Expr> = Vec::new();
    if p >= toks.len() {
        assert(exprs_view(list@) =~= Seq::<ExprView>::empty());
        return Some((list, p));
    }
    let mut q = match assign_expr(src, toks, p) {
        Some((first, next)) => {
            if next > p {
                list.push(first);
                assert(exprs_view(list@) =~= seq![first@]);
                next
            } else {
                return None;
            }
        },
        None => {
            assert(exprs_view(list@) =~= Seq::<ExprView>::empty());
            return Some((list, p));
        },
    };
    loop
        invariant
            countable(toks@),
            p < q <= toks@.len(),
            args_model(src@, toks@, p as int) == args_rest_model(
                src@,
                toks@,
                q as int,
                exprs_view(list@),
            ),
        decreases rest(toks@, q as int),
    {
        if !at(toks, q, Token::Comma) {
            return Some((list, q));
        }
        match assign_expr(src, toks, q + 1) {
            Some((next, end)) => {
                if end > q {
                    let ghost before = exprs_view(list@);
                    list.push(next);
                    assert(exprs_view(list@) =~= before.push(next@));
                    q = end;
                } else {
                    return Some((list, q));
                }
            },
            None => {
                return Some((list, q));
            },
        }
    }
}

/// A postfix expression at `p`.
pub fn postfix_expression(src: &[u8], toks: &Vec<Lexeme>, p: usize) -> (r: Option<(Expr, usize)>)
    requires
        countable(toks@),
    ensures
        gives(toks@, postfix_model(src@, toks@, p as int), r),
    decreases rest(toks@, p as int), 1nat, 0nat, 0nat,
{
    let (first, start) = match primary_expr(src, toks, p) {
        Some(found) => found,
        None => {
            return None;
        },
    };
    if start <= p {
        return None;
    }
    let mut acc = first;
    let mut q = start;
    loop
        invariant
            countable(toks@),
            p < q <= toks@.len(),
            postfix_model(src@, toks@, p as int) == suffixes_model(src@, toks@, q as int, acc@),
        decreases rest(toks@, q as int),
    {
        if at(toks, q, Token::Lpar) {
            match arguments(src, toks, q + 1) {
                Some((list, end)) => {
                    if at(toks, end, Token::Rpar) && end >= q {
                        let ghost args = exprs_view(list@);
                        let ghost callee = acc@;
                        acc = Expr::ECall(Box::new(acc), list);
                        proof {
                            assert(acc@->ECall_1 =~= args);
                            assert(acc@ == ExprView::ECall(Box::new(callee), args));
                        }
                        q = end + 1;
                    } else {
                        return Some((acc, q));
                    }
                },
                None => {
                    return Some((acc, q));
                },
            }
        } else if at(toks, q, Token::Arrow) {
            match ident(src, toks, q + 1) {
                Some((name, end)) => {
                    acc = Expr::EArrow(Box::new(acc), name);
                    q = end;
                },
                None => {
                    return Some((acc, q));
                },
            }
        } else {
            return Some((acc, q));
        }
    }
}

/// A primary expression at `p`.
pub fn primary_expr(src: &[u8], toks: &Vec<Lexeme>, p: usize) -> (r: Option<(Expr, usize)>)
    requires
        countable(toks@),
    ensures
        gives(toks@, primary_model(src@, toks@, p as int), r),
    decreases rest(toks@, p as int), 0nat, 0nat, 0nat,
{
    match integer(toks, p) {
        Some((value, q)) => {
            return Some((Expr::EConst(value), q));
        },
        None => {},
    }
    match ident(src, toks, p) {
        Some((name, q)) => {
            return Some((Expr::EVar(name), q));
        },
        None => {},
    }
    if at(toks, p, Token::Lpar) {
        match expr(src, toks, p + 1) {
            Some((inner, q)) => {
                if at(toks, q, Token::Rpar) {
                    Some((inner, q + 1))
                } else {
                    None
                }
            },
            None => None,
        }
    } else {
        None
    }
}

/// The spellings of `names`.
pub open spec fn spellings(names: Seq<String>) -> Seq<Seq<char>> {
    Seq::new(names.len(), |i: int| names[i]@)
}

/// `*` and an identifier at `p`.
pub fn star_ident(src: &[u8], toks: &Vec<Lexeme>, p: usize) -> (r: Option<(String, usize)>)
    requires
        countable(toks@),
    ensures
        match (if is(toks@, p as int, Token::Star) {
            ident_model(src@, toks@, p + 1)
        } else {
            None
        }) {
            Some((name, q)) => r is Some && r->Some_0.0@ == name && r->Some_0.1 == q && p < q
                <= toks@.len(),
            None => r is None,
        },
{
    if at(toks, p, Token::Star) {
        ident(src, toks, p + 1)
    } else {
        None
    }
}

/// The names from `p` on of a list of names separated by commas, each after
/// a `*` where `starred`, after the names of `names`.
fn names_rest(src: &[u8], toks: &Vec<Lexeme>, p: usize, starred: bool, names: Vec<String>) -> (r: (
    Vec<String>,
    usize,
))
    requires
        countable(toks@),
        p <= toks@.len(),
    ensures
        spellings(r.0@) == names_rest_model(
            src@,
            toks@,
            p as int,
            starred,
            spellings(names@),
        ).0,
        r.1 == names_rest_model(src@, toks@, p as int, starred, spellings(names@)).1,
        p <= r.1 <= toks@.len(),
{
    let ghost given = spellings(names@);
    let mut list = names;
    let mut q = p;
    loop
        invariant
            countable(toks@),
            p <= q <= toks@.len(),
            given == spellings(names@),
            names_rest_model(src@, toks@, p as int, starred, given) == names_rest_model(
                src@,
                toks@,
                q as int,
                starred,
                spellings(list@),
            ),
        decreases rest(toks@, q as int),
    {
        if !(at(toks, q, Token::Comma) && (!starred || at(toks, q + 1, Token::Star))) {
            return (list, q);
        }
        let start = if starred {
            q + 2
        } else {
            q + 1
        };
        match ident(src, toks, start) {
            Some((name, end)) => {
                if end > q {
                    let ghost before = spellings(list@);
                    let ghost spelt = name@;
                    list.push(name);
                    assert(spellings(list@) =~= before.push(spelt));
                    q = end;
                } else {
                    return (list, q);
                }
            },
            None => {
                return (list, q);
            },
        }
    }
}

/// The type `int`, or that of the struct `structure`.
pub open spec fn typ_for(structure: Option<String>) -> TypView {
    match structure {
        Some(name) => TypView::TStruct(name@),
        None => TypView::TInt,
    }
}

/// The formals of the type `int`, or of the struct `structure`, with the
/// names `names`.
fn make_formals(names: Vec<String>, structure: Option<String>) -> (r: Vec<Formal>)
    ensures
        formals_view(r@) == formals_of(spellings(names@), typ_for(structure)),
{
    let ghost all = spellings(names@);
    let ghost typ = typ_for(structure);
    let mut names = names;
    let mut reversed: Vec<Formal> = Vec::new();
    while names.len() > 0
        invariant
            names@.len() + reversed@.len() == all.len(),
            forall|i: int| 0 <= i < names@.len() ==> (#[trigger] names@[i])@ == all[i],
            forall|i: int|
                0 <= i < reversed@.len() ==> (#[trigger] reversed@[i])@ == (FormalView {
                    name: all[all.len() - 1 - i],
                    typ,
                }),
            typ == typ_for(structure),
        decreases names@.len(),
    {
        match names.pop() {
            Some(name) => {
                let formal_typ = match &structure {
                    Some(structure_name) => Typ::TStruct(structure_name.clone()),
                    None => Typ::TInt,
                };
                reversed.push(Formal::new(name, formal_typ));
            },
            None => {},
        }
    }
    let mut formals: Vec<Formal> = Vec::new();
    while reversed.len() > 0
        invariant
            formals@.len() + reversed@.len() == all.len(),
            forall|i: int|
                0 <= i < reversed@.len() ==> (#[trigger] reversed@[i])@ == (FormalView {
                    name: all[all.len() - 1 - i],
                    typ,
                }),
            forall|i: int|
                0 <= i < formals@.len() ==> (#[trigger] formals@[i])@ == (FormalView {
                    name: all[i],
                    typ,
                }),
        decreases reversed@.len(),
    {
        match reversed.pop() {
            Some(formal) => {
                formals.push(formal);
            },
            None => {},
        }
    }
    assert(formals_view(formals@) =~= formals_of(all, typ));
    formals
}

/// A declaration of variables at `p`.
pub fn decl_var(src: &[u8], toks: &Vec<Lexeme>, p: usize) -> (r: Option<(Vec<Formal>, usize)>)
    requires
        countable(toks@),
    ensures
        gives_formals(toks@, decl_var_model(src@, toks@, p as int), r),
{
    if at(toks, p, Token::Int) {
        match ident(src, toks, p + 1) {
            Some((first, q)) => {
                let mut names: Vec<String> = Vec::new();
                let ghost spelt = first@;
                names.push(first);
                assert(spellings(names@) =~= seq![spelt]);
                let (names, end) = names_rest(src, toks, q, false, names);
                if at(toks, end, Token::Semicolon) {
                    Some((make_formals(names, None), end + 1))
                } else {
                    None
                }
            },
            None => None,
        }
    } else if at(toks, p, Token::Struct) {
        match ident(src, toks, p + 1) {
            Some((structure, q)) => match star_ident(src, toks, q) {
                Some((first, next)) => {
                    let mut names: Vec<String> = Vec::new();
                    let ghost spelt = first@;
                    names.push(first);
                    assert(spellings(names@) =~= seq![spelt]);
                    let (names, end) = names_rest(src, toks, next, true, names);
                    if at(toks, end, Token::Semicolon) {
                        Some((make_formals(names, Some(structure)), end + 1))
                    } else {
                        None
                    }
                },
                None => None,
            },
            None => None,
        }
    } else {
        None
    }
}

/// A formal at `p`.
pub fn formal(src: &[u8], toks: &Vec<Lexeme>, p: usize) -> (r: Option<(Formal, usize)>)
    requires
        countable(toks@),
    ensures
        match formal_model(src@, toks@, p as int) {
            Some((found, q)) => r is Some && r->Some_0.0@ == found && r->Some_0.1 == q && p < q
                <= toks@.len(),
            None => r is None,
        },
{
    if at(toks, p, Token::Int) {
        match ident(src, toks, p + 1) {
            Some((name, q)) => Some((Formal::new(name, Typ::TInt), q)),
            None => None,
        }
    } else if at(toks, p, Token::Struct) {
        match ident(src, toks, p + 1) {
            Some((structure, q)) => match star_ident(src, toks, q) {
                Some((name, end)) => Some((Formal::new(name, Typ::TStruct(structure)), end)),
                None => None,
            },
            None => None,
        }
    } else {
        None
    }
}

/// The view of a block statement is the block of its view.
pub proof fn lemma_block_view(block: Block)
    ensures
        stmt_view(Stmt::SBlock(block)) == StmtView::SBlock(block@),
{
    assert(stmt_view(Stmt::SBlock(block))->SBlock_0.stmts =~= stmts_view(block.stmts@));
}

/// The declarations and statements of a block from `p` on.
fn items(src: &[u8], toks: &Vec<Lexeme>, p: usize) -> (r: (Vec<Formal>, Vec<Stmt>, usize))
    requires
        countable(toks@),
        0 < p <= toks@.len(),
    ensures
        (BlockView { vars: formals_view(r.0@), stmts: stmts_view(r.1@) }) == items_model(
            src@,
            toks@,
            p as int,
            BlockView { vars: Seq::empty(), stmts: Seq::empty() },
        ).0,
        r.2 == items_model(
            src@,
            toks@,
            p as int,
            BlockView { vars: Seq::empty(), stmts: Seq::empty() },
        ).1,
        p <= r.2 <= toks@.len(),
    decreases rest(toks@, (p - 1) as int), 10nat, 5nat, 0nat,
{
    let mut vars: Vec<Formal> = Vec::new();
    let mut stmts: Vec<Stmt> = Vec::new();
    let mut q = p;
    proof {
        assert(formals_view(vars@) =~= Seq::<FormalView>::empty());
        assert(stmts_view(stmts@) =~= Seq::<StmtView>::empty());
    }
    loop
        invariant
            countable(toks@),
            p <= q <= toks@.len(),
            0 < p,
            items_model(
                src@,
                toks@,
                p as int,
                BlockView { vars: Seq::empty(), stmts: Seq::empty() },
            ) == items_model(
                src@,
                toks@,
                q as int,
                BlockView { vars: formals_view(vars@), stmts: stmts_view(stmts@) },
            ),
        decreases rest(toks@, q as int),
    {
        if q >= toks.len() {
            return (vars, stmts, q);
        }
        match decl_var(src, toks, q) {
            Some((declared, end)) => {
                if end > q {
                    let ghost before = formals_view(vars@);
                    let ghost added = formals_view(declared@);
                    let mut declared = declared;
                    vars.append(&mut declared);
                    assert(formals_view(vars@) =~= before + added);
                    q = end;
                } else {
                    return (vars, stmts, q);
                }
            },
            None => match stmt(src, toks, q) {
                Some((found, end)) => {
                    if end > q {
                        let ghost before = stmts_view(stmts@);
                        let ghost added = found@;
                        stmts.push(found);
                        assert(stmts_view(stmts@) =~= before.push(added));
                        q = end;
                    } else {
                        return (vars, stmts, q);
                    }
                },
                None => {
                    return (vars, stmts, q);
                },
            },
        }
    }
}

/// A block at `p`.
pub fn block(src: &[u8], toks: &Vec<Lexeme>, p: usize) -> (r: Option<(Block, usize)>)
    requires
        countable(toks@),
    ensures
        match block_model(src@, toks@, p as int) {
            Some((found, q)) => r is Some && r->Some_0.0@ == found && r->Some_0.1 == q && p < q
                <= toks@.len(),
            None => r is None,
        },
    decreases rest(toks@, p as int), 11nat, 0nat, 0nat,
{
    if !at(toks, p, Token::Lbrace) {
        return None;
    }
    let (vars, stmts, q) = items(src, toks, p + 1);
    if at(toks, q, Token::Rbrace) {
        Some((Block::new(vars, stmts), q + 1))
    } else {
        None
    }
}

/// An expression, which may be missing, and `;`.
fn expr_stmt(src: &[u8], toks: &Vec<Lexeme>, p: usize) -> (r: Option<(Stmt, usize)>)
    requires
        countable(toks@),
    ensures
        gives_stmt(toks@, expr_stmt_model(src@, toks@, p as int), r),
{
    match expr(src, toks, p) {
        Some((found, q)) => {
            if at(toks, q, Token::Semicolon) {
                Some((Stmt::SExpr(found), q + 1))
            } else {
                None
            }
        },
        None => {
            if at(toks, p, Token::Semicolon) {
                Some((Stmt::SSkip, p + 1))
            } else {
                None
            }
        },
    }
}

/// What follows the first statement of a selection, which ends at `r`:
/// `else` and a statement, or nothing.
fn else_part(src: &[u8], toks: &Vec<Lexeme>, p: usize, r: usize) -> (found: (Stmt, usize))
    requires
        countable(toks@),
        r <= toks@.len(),
    ensures
        if is(toks@, r as int, Token::Else) && r >= p && stmt_model(src@, toks@, r + 1) is Some {
            found.0@ == stmt_model(src@, toks@, r + 1)->Some_0.0 && found.1 == stmt_model(
                src@,
                toks@,
                r + 1,
            )->Some_0.1
        } else {
            found.0@ == StmtView::SSkip && found.1 == r
        },
        found.1 <= toks@.len(),
    decreases rest(toks@, p as int), 10nat, 0nat, 0nat,
{
    if at(toks, r, Token::Else) && r >= p {
        match stmt(src, toks, r + 1) {
            Some(found) => {
                return found;
            },
            None => {},
        }
    }
    (Stmt::SSkip, r)
}

/// `if ( expr ) stmt`, and `else stmt` if it follows.
fn selection_stmt(src: &[u8], toks: &Vec<Lexeme>, p: usize) -> (r: Option<(Stmt, usize)>)
    requires
        countable(toks@),
    ensures
        gives_stmt(toks@, selection_model(src@, toks@, p as int), r),
    decreases rest(toks@, p as int), 11nat, 0nat, 0nat,
{
    if !(at(toks, p, Token::If) && at(toks, p + 1, Token::Lpar)) {
        return None;
    }
    let (condition, q) = match expr(src, toks, p + 2) {
        Some(found) => found,
        None => {
            return None;
        },
    };
    if !(at(toks, q, Token::Rpar) && q >= p) {
        return None;
    }
    let (stmt_if, r) = match stmt(src, toks, q + 1) {
        Some(found) => found,
        None => {
            return None;
        },
    };
    let (stmt_else, end) = else_part(src, toks, p, r);
    Some((Stmt::SIf(condition, Box::new(stmt_if), Box::new(stmt_else)), end))
}

/// `while ( expr ) stmt`.
fn iteration_stmt(src: &[u8], toks: &Vec<Lexeme>, p: usize) -> (r: Option<(Stmt, usize)>)
    requires
        countable(toks@),
    ensures
        gives_stmt(toks@, iteration_model(src@, toks@, p as int), r),
    decreases rest(toks@, p as int), 11nat, 0nat, 0nat,
{
    if !(at(toks, p, Token::While) && at(toks, p + 1, Token::Lpar)) {
        return None;
    }
    let (condition, q) = match expr(src, toks, p + 2) {
        Some(found) => found,
        None => {
            return None;
        },
    };
    if !(at(toks, q, Token::Rpar) && q >= p) {
        return None;
    }
    match stmt(src, toks, q + 1) {
        Some((body, end)) => Some((Stmt::SWhile(condition, Box::new(body)), end)),
        None => None,
    }
}

/// `return`, an expression, which may be missing, and `;`.
fn jump_stmt(src: &[u8], toks: &Vec<Lexeme>, p: usize) -> (r: Option<(Stmt, usize)>)
    requires
        countable(toks@),
    ensures
        gives_stmt(toks@, jump_model(src@, toks@, p as int), r),
{
    if !at(toks, p, Token::Return) {
        return None;
    }
    match expr(src, toks, p + 1) {
        Some((found, q)) => {
            if at(toks, q, Token::Semicolon) {
                Some((Stmt::SReturn(found), q + 1))
            } else {
                None
            }
        },
        None => {
            if at(toks, p + 1, Token::Semicolon) {
                Some((Stmt::SSkip, p + 2))
            } else {
                None
            }
        },
    }
}

/// A statement at `p`.
pub fn stmt(src: &[u8], toks: &Vec<Lexeme>, p: usize) -> (r: Option<(Stmt, usize)>)
    requires
        countable(toks@),
    ensures
        gives_stmt(toks@, stmt_model(src@, toks@, p as int), r),
    decreases rest(toks@, p as int), 12nat, 0nat, 0nat,
{
    match block(src, toks, p) {
        Some((found, q)) => {
            proof {
                lemma_block_view(found);
            }
            return Some((Stmt::SBlock(found), q));
        },
        None => {},
    }
    match expr_stmt(src, toks, p) {
        Some(found) => {
            return Some(found);
        },
        None => {},
    }
    match selection_stmt(src, toks, p) {
        Some(found) => {
            return Some(found);
        },
        None => {},
    }
    match iteration_stmt(src, toks, p) {
        Some(found) => {
            return Some(found);
        },
        None => {},
    }
    jump_stmt(src, toks, p)
}

/// The formals from `p` on of a list of formals separated by commas, after
/// those of `formals`.
fn formals_rest(src: &[u8], toks: &Vec<Lexeme>, p: usize, formals: Vec<Formal>) -> (r: (
    Vec<Formal>,
    usize,
))
    requires
        countable(toks@),
        p <= toks@.len(),
    ensures
        formals_view(r.0@) == formals_rest_model(
            src@,
            toks@,
            p as int,
            formals_view(formals@),
        ).0,
        r.1 == formals_rest_model(src@, toks@, p as int, formals_view(formals@)).1,
        p <= r.1 <= toks@.len(),
{
    let ghost given = formals_view(formals@);
    let mut list = formals;
    let mut q = p;
    loop
        invariant
            countable(toks@),
            p <= q <= toks@.len(),
            given == formals_view(formals@),
            formals_rest_model(src@, toks@, p as int, given) == formals_rest_model(
                src@,
                toks@,
                q as int,
                formals_view(list@),
            ),
        decreases rest(toks@, q as int),
    {
        if !at(toks, q, Token::Comma) {
            return (list, q);
        }
        match formal(src, toks, q + 1) {
            Some((more, after)) => {
                if after > q {
                    let ghost before = formals_view(list@);
                    let ghost added = more@;
                    list.push(more);
                    assert(formals_view(list@) =~= before.push(added));
                    q = after;
                } else {
                    return (list, q);
                }
            },
            None => {
                return (list, q);
            },
        }
    }
}

/// A function at `p`.
pub fn decl_fun(src: &[u8], toks: &Vec<Lexeme>, p: usize) -> (r: Option<(Fun, usize)>)
    requires
        countable(toks@),
    ensures
        match decl_fun_model(src@, toks@, p as int) {
            Some((found, q)) => r is Some && r->Some_0.0@ == found && r->Some_0.1 == q && p < q
                <= toks@.len(),
            None => r is None,
        },
{
    let (profile, q) = match formal(src, toks, p) {
        Some(found) => found,
        None => {
            return None;
        },
    };
    if !at(toks, q, Token::Lpar) {
        return None;
    }
    let mut args: Vec<Formal> = Vec::new();
    assert(formals_view(args@) =~= Seq::<FormalView>::empty());
    let (args, end) = match formal(src, toks, q + 1) {
        Some((first, next)) => {
            let ghost first_view = first@;
            args.push(first);
            assert(formals_view(args@) =~= seq![first_view]);
            formals_rest(src, toks, next, args)
        },
        None => (args, q + 1),
    };
    if !at(toks, end, Token::Rpar) {
        return None;
    }
    match block(src, toks, end + 1) {
        Some((body, after)) => Some((Fun::new(profile, args, body), after)),
        None => None,
    }
}

/// The fields of a struct from `p` on.
fn fields(src: &[u8], toks: &Vec<Lexeme>, p: usize) -> (r: (Vec<Formal>, usize))
    requires
        countable(toks@),
        p <= toks@.len(),
    ensures
        formals_view(r.0@) == fields_model(src@, toks@, p as int, Seq::empty()).0,
        r.1 == fields_model(src@, toks@, p as int, Seq::empty()).1,
        p <= r.1 <= toks@.len(),
{
    let mut list: Vec<Formal> = Vec::new();
    let mut end = p;
    assert(formals_view(list@) =~= Seq::<FormalView>::empty());
    loop
        invariant
            countable(toks@),
            p <= end <= toks@.len(),
            fields_model(src@, toks@, p as int, Seq::empty()) == fields_model(
                src@,
                toks@,
                end as int,
                formals_view(list@),
            ),
        decreases rest(toks@, end as int),
    {
        match decl_var(src, toks, end) {
            Some((declared, after)) => {
                if after > end && end < toks.len() {
                    let ghost before = formals_view(list@);
                    let ghost added = formals_view(declared@);
                    let mut declared = declared;
                    list.append(&mut declared);
                    assert(formals_view(list@) =~= before + added);
                    end = after;
                } else {
                    return (list, end);
                }
            },
            None => {
                return (list, end);
            },
        }
    }
}

/// A struct at `p`.
pub fn decl_struct(src: &[u8], toks: &Vec<Lexeme>, p: usize) -> (r: Option<(Struct, usize)>)
    requires
        countable(toks@),
    ensures
        match decl_struct_model(src@, toks@, p as int) {
            Some((found, q)) => r is Some && r->Some_0.0@ == found && r->Some_0.1 == q && p < q
                <= toks@.len(),
            None => r is None,
        },
{
    if !at(toks, p, Token::Struct) {
        return None;
    }
    let (name, q) = match ident(src, toks, p + 1) {
        Some(found) => found,
        None => {
            return None;
        },
    };
    if !at(toks, q, Token::Lbrace) {
        return None;
    }
    let (list, end) = fields(src, toks, q + 1);
    if at(toks, end, Token::Rbrace) && at(toks, end + 1, Token::Semicolon) {
        Some((Struct::new(name, list), end + 2))
    } else {
        None
    }
}

/// Whether the tokens end at `p`.
pub fn eof(toks: &Vec<Lexeme>, p: usize) -> (r: bool)
    ensures
        r == (tok(toks@, p as int) is None),
{
    match peek(toks, p) {
        None => true,
        Some(_) => false,
    }
}

/// The functions and structs as a file of the model.
pub open spec fn file_view(funs: Seq<Fun>, structs: Seq<Struct>) -> FileView {
    FileView {
        funs: Seq::new(funs.len(), |i: int| funs[i]@),
        structs: Seq::new(structs.len(), |i: int| structs[i]@),
    }
}

/// The structs and functions of a file from the first token on.
fn decls(src: &[u8], toks: &Vec<Lexeme>) -> (r: (Vec<Fun>, Vec<Struct>, usize))
    requires
        countable(toks@),
    ensures
        file_view(r.0@, r.1@) == decls_model(
            src@,
            toks@,
            0,
            FileView { funs: Seq::empty(), structs: Seq::empty() },
        ).0,
        r.2 == decls_model(
            src@,
            toks@,
            0,
            FileView { funs: Seq::empty(), structs: Seq::empty() },
        ).1,
{
    let mut funs: Vec<Fun> = Vec::new();
    let mut structs: Vec<Struct> = Vec::new();
    let mut p: usize = 0;
    let ghost start = FileView { funs: Seq::empty(), structs: Seq::empty() };
    assert(file_view(funs@, structs@).funs =~= start.funs);
    assert(file_view(funs@, structs@).structs =~= start.structs);
    loop
        invariant
            countable(toks@),
            p <= toks@.len(),
            start == (FileView { funs: Seq::empty(), structs: Seq::empty() }),
            decls_model(src@, toks@, 0, start) == decls_model(
                src@,
                toks@,
                p as int,
                file_view(funs@, structs@),
            ),
        decreases rest(toks@, p as int),
    {
        if p >= toks.len() {
            return (funs, structs, p);
        }
        let ghost before = file_view(funs@, structs@);
        match decl_struct(src, toks, p) {
            Some((structure, q)) => {
                if q > p {
                    let ghost added = structure@;
                    structs.push(structure);
                    assert(file_view(funs@, structs@).funs =~= before.funs);
                    assert(file_view(funs@, structs@).structs =~= before.structs.push(added));
                    p = q;
                } else {
                    return (funs, structs, p);
                }
            },
            None => match decl_fun(src, toks, p) {
                Some((fun, q)) => {
                    if q > p {
                        let ghost added = fun@;
                        funs.push(fun);
                        assert(file_view(funs@, structs@).funs =~= before.funs.push(added));
                        assert(file_view(funs@, structs@).structs =~= before.structs);
                        p = q;
                    } else {
                        return (funs, structs, p);
                    }
                },
                None => {
                    return (funs, structs, p);
                },
            },
        }
    }
}

/// A file: structs and functions up to the end of the tokens. It fails
/// where the tokens are not of that form.
pub fn parse_tokens(src: &[u8], toks: &Vec<Lexeme>) -> (r: ParserResult<File>)
    ensures
        if countable(toks@) {
            match file_model(src@, toks@) {
                Some(file) => r is Ok && r->Ok_0@ == file,
                None => r is Err && r->Err_0 == ParserError::Syntax,
            }
        } else {
            r is Err && r->Err_0 == ParserError::TooLong
        },
{
    if toks.len() >= usize::MAX - 8 {
        return Err(ParserError::TooLong);
    }
    let (funs, structs, p) = decls(src, toks);
    if p == toks.len() {
        let file = File::new(funs, structs);
        assert(file@ == file_view(funs@, structs@));
        Ok(file)
    } else {
        Err(ParserError::Syntax)
    }
}

/// Parses a source text: lexes it, then parses its tokens.
pub fn parse_file(input: &str) -> (r: ParserResult<File>)
    ensures
        if input.spec_bytes().len() < usize::MAX - 8 {
            match file_model(input.spec_bytes(), lex_model(input.spec_bytes(), 0, Seq::empty())) {
                Some(file) => r is Ok && r->Ok_0@ == file,
                None => r is Err && r->Err_0 == ParserError::Syntax,
            }
        } else {
            r is Err && r->Err_0 == ParserError::TooLong
        },
{
    let src = input.as_bytes();
    if src.len() >= usize::MAX - 8 {
        return Err(ParserError::TooLong);
    }
    let toks = lex(src);
    parse_tokens(src, &toks)
}

} // verus!

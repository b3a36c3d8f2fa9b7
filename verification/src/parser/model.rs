use crate::common::Value;
use crate::lexer::{Lexeme, Token};
use crate::parser::structure::{Binop, Unop};
use crate::parser::view::{
    BlockView, ExprView, FileView, FormalView, FunView, StmtView, StructView, TypView,
};
use vstd::prelude::*;

verus! {

/// What a parser gives: a value and the place where it ends; `None` where
/// the tokens from the place on are not of its form.
pub type Parsed<T> = Option<(T, int)>;

/// The token at `p`, if there is one.
pub open spec fn tok(toks: Seq<Lexeme>, p: int) -> Option<Token> {
    if 0 <= p < toks.len() {
        Some(toks[p].token)
    } else {
        None
    }
}

/// The token at `p` is `token`.
pub open spec fn is(toks: Seq<Lexeme>, p: int, token: Token) -> bool {
    tok(toks, p) == Some(token)
}

/// The spelling of `lexeme` in `src`, where it lies within it and is all
/// ASCII.
pub open spec fn name_model(src: Seq<u8>, lexeme: Lexeme) -> Option<Seq<char>> {
    if lexeme.start <= lexeme.end <= src.len() && forall|i: int|
        lexeme.start <= i < lexeme.end ==> #[trigger] src[i] < 128 {
        Some(Seq::new((lexeme.end - lexeme.start) as nat, |i: int| src[lexeme.start + i] as char))
    } else {
        None
    }
}

/// An identifier at `p`.
pub open spec fn ident_model(src: Seq<u8>, toks: Seq<Lexeme>, p: int) -> Parsed<Seq<char>> {
    if is(toks, p, Token::Ident) {
        match name_model(src, toks[p]) {
            Some(name) => Some((name, p + 1)),
            None => None,
        }
    } else {
        None
    }
}

/// A constant at `p`.
pub open spec fn integer_model(toks: Seq<Lexeme>, p: int) -> Parsed<Value> {
    match tok(toks, p) {
        Some(Token::HexConstant(x)) => Some((x as i64, p + 1)),
        Some(Token::DecimalConstant(x)) => Some((x as i64, p + 1)),
        Some(Token::OctalConstant(x)) => Some((x as i64, p + 1)),
        Some(Token::CharConstant(x)) => Some((x as i64, p + 1)),
        Some(Token::NewlineConstant) => Some((10, p + 1)),
        _ => None,
    }
}

/// The unary operator that `token` is.
pub open spec fn unop_model(token: Option<Token>) -> Option<Unop> {
    match token {
        Some(Token::Minus) => Some(Unop::UMinus),
        Some(Token::Bang) => Some(Unop::UNot),
        _ => None,
    }
}

/// The binary operator of the level `level` that `token` is. The levels
/// bind from 0, the tightest: `* /`, `+ -`, `<= < >= >`, `== !=`, `&&`,
/// `||`.
pub open spec fn binop_model(level: u8, token: Option<Token>) -> Option<Binop> {
    match (level, token) {
        (0, Some(Token::Star)) => Some(Binop::BMul),
        (0, Some(Token::Div)) => Some(Binop::BDiv),
        (1, Some(Token::Plus)) => Some(Binop::BAdd),
        (1, Some(Token::Minus)) => Some(Binop::BSub),
        (2, Some(Token::Le)) => Some(Binop::BLe),
        (2, Some(Token::Lt)) => Some(Binop::BLt),
        (2, Some(Token::Ge)) => Some(Binop::BGe),
        (2, Some(Token::Gt)) => Some(Binop::BGt),
        (3, Some(Token::EqEq)) => Some(Binop::BEq),
        (3, Some(Token::BangEq)) => Some(Binop::BNeq),
        (4, Some(Token::AmpersandAmpersand)) => Some(Binop::BAnd),
        (5, Some(Token::VerticalBarVerticalBar)) => Some(Binop::BOr),
        _ => None,
    }
}

/// How many tokens are left from `p` on.
pub open spec fn rest(toks: Seq<Lexeme>, p: int) -> nat {
    if p < toks.len() {
        (toks.len() - p) as nat
    } else {
        0
    }
}

/// An expression at `p`.
pub open spec fn expr_model(src: Seq<u8>, toks: Seq<Lexeme>, p: int) -> Parsed<ExprView>
    decreases rest(toks, p), 10nat, 0nat, 0nat,
{
    assign_model(src, toks, p)
}

/// An assignment at `p`: a unary expression, `=` and an assignment; or an
/// expression of the loosest binary level.
pub open spec fn assign_model(src: Seq<u8>, toks: Seq<Lexeme>, p: int) -> Parsed<ExprView>
    decreases rest(toks, p), 9nat, 0nat, 0nat,
{
    match unary_model(src, toks, p) {
        Some((target, q)) => if is(toks, q, Token::Eq) && q >= p {
            match assign_model(src, toks, q + 1) {
                Some((value, r)) => Some(
                    (ExprView::EAssign(Box::new(target), Box::new(value)), r),
                ),
                None => binary_model(src, toks, 5, p),
            }
        } else {
            binary_model(src, toks, 5, p)
        },
        None => binary_model(src, toks, 5, p),
    }
}

/// An operand of the binary level `level` at `p`.
pub open spec fn operand_model(src: Seq<u8>, toks: Seq<Lexeme>, level: u8, p: int) -> Parsed<
    ExprView,
>
    decreases rest(toks, p), 3 + level, 0nat, 0nat,
{
    if level == 0 {
        unary_model(src, toks, p)
    } else if level <= 5 {
        binary_model(src, toks, (level - 1) as u8, p)
    } else {
        None
    }
}

/// An expression of the binary level `level` at `p`: operands of the level
/// with operators of it between them, grouped to the left.
pub open spec fn binary_model(src: Seq<u8>, toks: Seq<Lexeme>, level: u8, p: int) -> Parsed<
    ExprView,
>
    decreases rest(toks, p), 3 + level, 1nat, 0nat,
{
    if level > 5 {
        None
    } else {
        match operand_model(src, toks, level, p) {
            Some((first, q)) => if q > p && p < toks.len() {
                binary_rest_model(src, toks, level, q, first)
            } else {
                None
            },
            None => None,
        }
    }
}

/// The rest of an expression of the binary level `level` from `p` on, of
/// which `acc` is parsed.
pub open spec fn binary_rest_model(
    src: Seq<u8>,
    toks: Seq<Lexeme>,
    level: u8,
    p: int,
    acc: ExprView,
) -> Parsed<ExprView>
    decreases rest(toks, p), 3 + level, 1nat, 0nat,
{
    match binop_model(level, tok(toks, p)) {
        Some(op) => match operand_model(src, toks, level, p + 1) {
            Some((second, q)) => if q > p {
                binary_rest_model(
                    src,
                    toks,
                    level,
                    q,
                    ExprView::EBinop(op, Box::new(acc), Box::new(second)),
                )
            } else {
                Some((acc, p))
            },
            None => Some((acc, p)),
        },
        None => Some((acc, p)),
    }
}

/// A unary expression at `p`: a postfix expression; or a unary operator
/// and a unary expression; or a `sizeof`.
pub open spec fn unary_model(src: Seq<u8>, toks: Seq<Lexeme>, p: int) -> Parsed<ExprView>
    decreases rest(toks, p), 2nat, 0nat, 0nat,
{
    match postfix_model(src, toks, p) {
        Some(found) => Some(found),
        None => match unop_model(tok(toks, p)) {
            Some(op) => match unary_model(src, toks, p + 1) {
                Some((inner, q)) => Some((ExprView::EUnop(op, Box::new(inner)), q)),
                None => sizeof_model(src, toks, p),
            },
            None => sizeof_model(src, toks, p),
        },
    }
}

/// `sizeof ( struct name )` at `p`.
pub open spec fn sizeof_model(src: Seq<u8>, toks: Seq<Lexeme>, p: int) -> Parsed<ExprView> {
    if is(toks, p, Token::Sizeof) && is(toks, p + 1, Token::Lpar) && is(
        toks,
        p + 2,
        Token::Struct,
    ) {
        match ident_model(src, toks, p + 3) {
            Some((name, q)) => if is(toks, q, Token::Rpar) {
                Some((ExprView::ESizeof(name), q + 1))
            } else {
                None
            },
            None => None,
        }
    } else {
        None
    }
}

/// A postfix expression at `p`: a primary expression and its suffixes.
pub open spec fn postfix_model(src: Seq<u8>, toks: Seq<Lexeme>, p: int) -> Parsed<ExprView>
    decreases rest(toks, p), 1nat, 0nat, 0nat,
{
    match primary_model(src, toks, p) {
        Some((first, q)) => if q > p {
            suffixes_model(src, toks, q, first)
        } else {
            None
        },
        None => None,
    }
}

/// The suffixes from `p` on of the postfix expression `acc`: argument lists
/// in parentheses and accesses to a field by `->`.
pub open spec fn suffixes_model(src: Seq<u8>, toks: Seq<Lexeme>, p: int, acc: ExprView) -> Parsed<
    ExprView,
>
    decreases rest(toks, p), 0nat, 0nat, 0nat,
{
    if is(toks, p, Token::Lpar) {
        match args_model(src, toks, p + 1) {
            Some((args, q)) => if is(toks, q, Token::Rpar) && q >= p {
                suffixes_model(src, toks, q + 1, ExprView::ECall(Box::new(acc), args))
            } else {
                Some((acc, p))
            },
            None => Some((acc, p)),
        }
    } else if is(toks, p, Token::Arrow) {
        match ident_model(src, toks, p + 1) {
            Some((name, q)) => suffixes_model(src, toks, q, ExprView::EArrow(Box::new(acc), name)),
            None => Some((acc, p)),
        }
    } else {
        Some((acc, p))
    }
}

/// A list of assignments at `p`, separated by commas; it may be empty.
pub open spec fn args_model(src: Seq<u8>, toks: Seq<Lexeme>, p: int) -> Parsed<Seq<ExprView>>
    decreases rest(toks, p), 11nat, 0nat, 0nat,
{
    if p >= toks.len() {
        Some((Seq::empty(), p))
    } else {
        match assign_model(src, toks, p) {
            Some((first, q)) => if q > p {
                args_rest_model(src, toks, q, seq![first])
            } else {
                None
            },
            None => Some((Seq::empty(), p)),
        }
    }
}

/// The rest of a list of assignments from `p` on, of which `acc` is parsed.
pub open spec fn args_rest_model(
    src: Seq<u8>,
    toks: Seq<Lexeme>,
    p: int,
    acc: Seq<ExprView>,
) -> Parsed<Seq<ExprView>>
    decreases rest(toks, p), 11nat, 0nat, 0nat,
{
    if is(toks, p, Token::Comma) {
        match assign_model(src, toks, p + 1) {
            Some((next, q)) => if q > p {
                args_rest_model(src, toks, q, acc.push(next))
            } else {
                Some((acc, p))
            },
            None => Some((acc, p)),
        }
    } else {
        Some((acc, p))
    }
}

/// A primary expression at `p`: a constant, an identifier, or an expression
/// in parentheses.
pub open spec fn primary_model(src: Seq<u8>, toks: Seq<Lexeme>, p: int) -> Parsed<ExprView>
    decreases rest(toks, p), 0nat, 0nat, 0nat,
{
    match integer_model(toks, p) {
        Some((value, q)) => Some((ExprView::EConst(value), q)),
        None => match ident_model(src, toks, p) {
            Some((name, q)) => Some((ExprView::EVar(name), q)),
            None => if is(toks, p, Token::Lpar) {
                match expr_model(src, toks, p + 1) {
                    Some((inner, q)) => if is(toks, q, Token::Rpar) {
                        Some((inner, q + 1))
                    } else {
                        None
                    },
                    None => None,
                }
            } else {
                None
            },
        },
    }
}

/// The names from `p` on of a list of names separated by commas, each after
/// a `*` where `starred`; `acc` holds those parsed.
pub open spec fn names_rest_model(
    src: Seq<u8>,
    toks: Seq<Lexeme>,
    p: int,
    starred: bool,
    acc: Seq<Seq<char>>,
) -> (Seq<Seq<char>>, int)
    decreases rest(toks, p),
{
    let at = if starred {
        p + 2
    } else {
        p + 1
    };
    if is(toks, p, Token::Comma) && (!starred || is(toks, p + 1, Token::Star)) {
        match ident_model(src, toks, at) {
            Some((name, q)) => if q > p {
                names_rest_model(src, toks, q, starred, acc.push(name))
            } else {
                (acc, p)
            },
            None => (acc, p),
        }
    } else {
        (acc, p)
    }
}

/// The formals of the type `typ` with the names `names`.
pub open spec fn formals_of(names: Seq<Seq<char>>, typ: TypView) -> Seq<FormalView> {
    Seq::new(names.len(), |i: int| FormalView { name: names[i], typ })
}

/// A declaration of variables at `p`: `int` and names, or `struct`, a name
/// and starred names; then `;`.
pub open spec fn decl_var_model(src: Seq<u8>, toks: Seq<Lexeme>, p: int) -> Parsed<
    Seq<FormalView>,
> {
    if is(toks, p, Token::Int) {
        match ident_model(src, toks, p + 1) {
            Some((first, q)) => {
                let (names, r) = names_rest_model(src, toks, q, false, seq![first]);
                if is(toks, r, Token::Semicolon) {
                    Some((formals_of(names, TypView::TInt), r + 1))
                } else {
                    None
                }
            },
            None => None,
        }
    } else if is(toks, p, Token::Struct) {
        match ident_model(src, toks, p + 1) {
            Some((structure, q)) => if is(toks, q, Token::Star) {
                match ident_model(src, toks, q + 1) {
                    Some((first, r)) => {
                        let (names, s) = names_rest_model(src, toks, r, true, seq![first]);
                        if is(toks, s, Token::Semicolon) {
                            Some((formals_of(names, TypView::TStruct(structure)), s + 1))
                        } else {
                            None
                        }
                    },
                    None => None,
                }
            } else {
                None
            },
            None => None,
        }
    } else {
        None
    }
}

/// A formal at `p`: `int` and a name, or `struct`, a name, `*` and a name.
pub open spec fn formal_model(src: Seq<u8>, toks: Seq<Lexeme>, p: int) -> Parsed<FormalView> {
    if is(toks, p, Token::Int) {
        match ident_model(src, toks, p + 1) {
            Some((name, q)) => Some((FormalView { name, typ: TypView::TInt }, q)),
            None => None,
        }
    } else if is(toks, p, Token::Struct) {
        match ident_model(src, toks, p + 1) {
            Some((structure, q)) => if is(toks, q, Token::Star) {
                match ident_model(src, toks, q + 1) {
                    Some((name, r)) => Some(
                        (FormalView { name, typ: TypView::TStruct(structure) }, r),
                    ),
                    None => None,
                }
            } else {
                None
            },
            None => None,
        }
    } else {
        None
    }
}

/// A block at `p`: declarations and statements between braces.
pub open spec fn block_model(src: Seq<u8>, toks: Seq<Lexeme>, p: int) -> Parsed<BlockView>
    decreases rest(toks, p), 11nat, 0nat, 0nat,
{
    if is(toks, p, Token::Lbrace) {
        let (block, q) = items_model(
            src,
            toks,
            p + 1,
            BlockView { vars: Seq::empty(), stmts: Seq::empty() },
        );
        if is(toks, q, Token::Rbrace) {
            Some((block, q + 1))
        } else {
            None
        }
    } else {
        None
    }
}

/// The declarations and statements of a block from `p` on; `acc` holds
/// those parsed.
pub open spec fn items_model(src: Seq<u8>, toks: Seq<Lexeme>, p: int, acc: BlockView) -> (
    BlockView,
    int,
)
    decreases rest(toks, p), 13nat, 0nat, 0nat,
{
    if p >= toks.len() {
        (acc, p)
    } else {
        match decl_var_model(src, toks, p) {
            Some((vars, q)) => if q > p {
                items_model(src, toks, q, BlockView { vars: acc.vars + vars, stmts: acc.stmts })
            } else {
                (acc, p)
            },
            None => match stmt_model(src, toks, p) {
                Some((stmt, q)) => if q > p {
                    items_model(
                        src,
                        toks,
                        q,
                        BlockView { vars: acc.vars, stmts: acc.stmts.push(stmt) },
                    )
                } else {
                    (acc, p)
                },
                None => (acc, p),
            },
        }
    }
}

/// A statement at `p`: a block; or an expression, which may be missing,
/// and `;`; or a selection; or a loop; or a `return`.
pub open spec fn stmt_model(src: Seq<u8>, toks: Seq<Lexeme>, p: int) -> Parsed<StmtView>
    decreases rest(toks, p), 12nat, 0nat, 0nat,
{
    match block_model(src, toks, p) {
        Some((block, q)) => Some((StmtView::SBlock(block), q)),
        None => match expr_stmt_model(src, toks, p) {
            Some(found) => Some(found),
            None => match selection_model(src, toks, p) {
                Some(found) => Some(found),
                None => match iteration_model(src, toks, p) {
                    Some(found) => Some(found),
                    None => jump_model(src, toks, p),
                },
            },
        },
    }
}

/// An expression, which may be missing, and `;`.
pub open spec fn expr_stmt_model(src: Seq<u8>, toks: Seq<Lexeme>, p: int) -> Parsed<StmtView> {
    match expr_model(src, toks, p) {
        Some((expr, q)) => if is(toks, q, Token::Semicolon) {
            Some((StmtView::SExpr(expr), q + 1))
        } else {
            None
        },
        None => if is(toks, p, Token::Semicolon) {
            Some((StmtView::SSkip, p + 1))
        } else {
            None
        },
    }
}

/// `if ( expr ) stmt`, and `else stmt` if it follows.
pub open spec fn selection_model(src: Seq<u8>, toks: Seq<Lexeme>, p: int) -> Parsed<StmtView>
    decreases rest(toks, p), 11nat, 0nat, 0nat,
{
    if is(toks, p, Token::If) && is(toks, p + 1, Token::Lpar) {
        match expr_model(src, toks, p + 2) {
            Some((expr, q)) => if is(toks, q, Token::Rpar) && q >= p {
                match stmt_model(src, toks, q + 1) {
                    Some((stmt_if, r)) => if is(toks, r, Token::Else) && r >= p {
                        match stmt_model(src, toks, r + 1) {
                            Some((stmt_else, s)) => Some(
                                (
                                    StmtView::SIf(expr, Box::new(stmt_if), Box::new(stmt_else)),
                                    s,
                                ),
                            ),
                            None => Some(
                                (
                                    StmtView::SIf(
                                        expr,
                                        Box::new(stmt_if),
                                        Box::new(StmtView::SSkip),
                                    ),
                                    r,
                                ),
                            ),
                        }
                    } else {
                        Some(
                            (
                                StmtView::SIf(expr, Box::new(stmt_if), Box::new(StmtView::SSkip)),
                                r,
                            ),
                        )
                    },
                    None => None,
                }
            } else {
                None
            },
            None => None,
        }
    } else {
        None
    }
}

/// `while ( expr ) stmt`.
pub open spec fn iteration_model(src: Seq<u8>, toks: Seq<Lexeme>, p: int) -> Parsed<StmtView>
    decreases rest(toks, p), 11nat, 0nat, 0nat,
{
    if is(toks, p, Token::While) && is(toks, p + 1, Token::Lpar) {
        match expr_model(src, toks, p + 2) {
            Some((expr, q)) => if is(toks, q, Token::Rpar) && q >= p {
                match stmt_model(src, toks, q + 1) {
                    Some((body, r)) => Some((StmtView::SWhile(expr, Box::new(body)), r)),
                    None => None,
                }
            } else {
                None
            },
            None => None,
        }
    } else {
        None
    }
}

/// `return`, an expression, which may be missing, and `;`.
pub open spec fn jump_model(src: Seq<u8>, toks: Seq<Lexeme>, p: int) -> Parsed<StmtView> {
    if is(toks, p, Token::Return) {
        match expr_model(src, toks, p + 1) {
            Some((expr, q)) => if is(toks, q, Token::Semicolon) {
                Some((StmtView::SReturn(expr), q + 1))
            } else {
                None
            },
            None => if is(toks, p + 1, Token::Semicolon) {
                Some((StmtView::SSkip, p + 2))
            } else {
                None
            },
        }
    } else {
        None
    }
}

/// The formals from `p` on of a list of formals separated by commas; `acc`
/// holds those parsed.
pub open spec fn formals_rest_model(
    src: Seq<u8>,
    toks: Seq<Lexeme>,
    p: int,
    acc: Seq<FormalView>,
) -> (Seq<FormalView>, int)
    decreases rest(toks, p),
{
    if is(toks, p, Token::Comma) {
        match formal_model(src, toks, p + 1) {
            Some((next, q)) => if q > p {
                formals_rest_model(src, toks, q, acc.push(next))
            } else {
                (acc, p)
            },
            None => (acc, p),
        }
    } else {
        (acc, p)
    }
}

/// A function at `p`: a formal, formals in parentheses, and a block.
pub open spec fn decl_fun_model(src: Seq<u8>, toks: Seq<Lexeme>, p: int) -> Parsed<FunView> {
    match formal_model(src, toks, p) {
        Some((profile, q)) => if is(toks, q, Token::Lpar) {
            let (args, r) = match formal_model(src, toks, q + 1) {
                Some((first, next)) => formals_rest_model(src, toks, next, seq![first]),
                None => (Seq::empty(), q + 1),
            };
            if is(toks, r, Token::Rpar) {
                match block_model(src, toks, r + 1) {
                    Some((body, s)) => Some((FunView { profile, args, body }, s)),
                    None => None,
                }
            } else {
                None
            }
        } else {
            None
        },
        None => None,
    }
}

/// The fields of a struct from `p` on; `acc` holds those parsed.
pub open spec fn fields_model(src: Seq<u8>, toks: Seq<Lexeme>, p: int, acc: Seq<FormalView>) -> (
    Seq<FormalView>,
    int,
)
    decreases rest(toks, p),
{
    match decl_var_model(src, toks, p) {
        Some((fields, q)) => if q > p && p < toks.len() {
            fields_model(src, toks, q, acc + fields)
        } else {
            (acc, p)
        },
        None => (acc, p),
    }
}

/// A struct at `p`: `struct`, a name, fields between braces, and `;`.
pub open spec fn decl_struct_model(src: Seq<u8>, toks: Seq<Lexeme>, p: int) -> Parsed<StructView> {
    if is(toks, p, Token::Struct) {
        match ident_model(src, toks, p + 1) {
            Some((name, q)) => if is(toks, q, Token::Lbrace) {
                let (fields, r) = fields_model(src, toks, q + 1, Seq::empty());
                if is(toks, r, Token::Rbrace) && is(toks, r + 1, Token::Semicolon) {
                    Some((StructView { name, fields }, r + 2))
                } else {
                    None
                }
            } else {
                None
            },
            None => None,
        }
    } else {
        None
    }
}

/// The structs and functions of a file from `p` on; `acc` holds those
/// parsed.
pub open spec fn decls_model(src: Seq<u8>, toks: Seq<Lexeme>, p: int, acc: FileView) -> (
    FileView,
    int,
)
    decreases rest(toks, p),
{
    if p >= toks.len() {
        (acc, p)
    } else {
        match decl_struct_model(src, toks, p) {
            Some((structure, q)) => if q > p {
                decls_model(
                    src,
                    toks,
                    q,
                    FileView { funs: acc.funs, structs: acc.structs.push(structure) },
                )
            } else {
                (acc, p)
            },
            None => match decl_fun_model(src, toks, p) {
                Some((fun, q)) => if q > p {
                    decls_model(
                        src,
                        toks,
                        q,
                        FileView { funs: acc.funs.push(fun), structs: acc.structs },
                    )
                } else {
                    (acc, p)
                },
                None => (acc, p),
            },
        }
    }
}

/// A file: structs and functions up to the end of the tokens.
pub open spec fn file_model(src: Seq<u8>, toks: Seq<Lexeme>) -> Option<FileView> {
    let (file, p) = decls_model(
        src,
        toks,
        0,
        FileView { funs: Seq::empty(), structs: Seq::empty() },
    );
    if p == toks.len() {
        Some(file)
    } else {
        None
    }
}

} // verus!

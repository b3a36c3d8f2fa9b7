use minic::lexer::{lex, Token};
use minic::parser::error::ParserError;
use minic::parser::structure::{Binop, Block, Expr, File, Formal, Fun, Stmt, Struct, Typ, Unop};
use minic::parser::{
    block, decl_fun, decl_struct, eof, expr, integer, parse_file, parse_tokens, peek, stmt,
};

fn s(text: &str) -> String {
    String::from(text)
}

fn var(name: &str) -> Box<Expr> {
    Box::new(Expr::EVar(s(name)))
}

fn constant(value: i64) -> Box<Expr> {
    Box::new(Expr::EConst(value))
}

fn parse_expr(source: &str) -> Expr {
    let tokens = lex(source.as_bytes());
    let (parsed, end) = expr(source.as_bytes(), &tokens, 0).expect("expression");
    assert!(eof(&tokens, end));
    parsed
}

fn parse_stmt(source: &str) -> Stmt {
    let tokens = lex(source.as_bytes());
    let (parsed, end) = stmt(source.as_bytes(), &tokens, 0).expect("statement");
    assert!(eof(&tokens, end));
    parsed
}

fn parse_integer(source: &str) -> i64 {
    let tokens = lex(source.as_bytes());
    let (parsed, end) = integer(&tokens, 0).expect("integer");
    assert!(eof(&tokens, end));
    parsed
}

#[test]
fn test_eof() {
    let to_test = "x";
    let tokens = lex(to_test.as_bytes());

    assert_eq!(peek(&tokens, 0), Some(Token::Ident));
    assert!(!eof(&tokens, 0));
    assert!(eof(&tokens, 1));
}

#[test]
fn int_decimal() {
    assert_eq!(parse_integer("1"), 1);
}

#[test]
fn int_octal() {
    assert_eq!(parse_integer("0"), 0);
}

#[test]
fn int_hex_x_0() {
    assert_eq!(parse_integer("0x0"), 0);
}

#[test]
fn int_hex_x_1() {
    assert_eq!(parse_integer("0X1"), 1);
}

#[test]
fn int_char_and_newline() {
    assert_eq!(parse_integer("'a'"), 97);
    assert_eq!(parse_integer("'\\n'"), 10);
}

#[test]
fn add() {
    assert_eq!(parse_expr("x+1"), Expr::EBinop(Binop::BAdd, var("x"), constant(1)));
}

#[test]
fn empty_stmt() {
    assert_eq!(parse_stmt(";"), Stmt::SSkip);
}

#[test]
fn expr_stmt() {
    assert_eq!(parse_stmt("x;"), Stmt::SExpr(Expr::EVar(s("x"))));
}

#[test]
fn return_stmt() {
    assert_eq!(parse_stmt("return x;"), Stmt::SReturn(Expr::EVar(s("x"))));
    assert_eq!(parse_stmt("return;"), Stmt::SSkip);
}

#[test]
fn assign_var_expr() {
    assert_eq!(parse_expr("x = 1"), Expr::EAssign(var("x"), constant(1)));
}

#[test]
fn eq_expr() {
    assert_eq!(parse_expr("x == 1"), Expr::EBinop(Binop::BEq, var("x"), constant(1)));
}

#[test]
fn and_expr() {
    assert_eq!(parse_expr("x && 1"), Expr::EBinop(Binop::BAnd, var("x"), constant(1)));
}

#[test]
fn or_expr() {
    assert_eq!(parse_expr("x || 1"), Expr::EBinop(Binop::BOr, var("x"), constant(1)));
}

#[test]
fn not_expr() {
    assert_eq!(parse_expr("!x"), Expr::EUnop(Unop::UNot, var("x")));
}

#[test]
fn ge_expr() {
    assert_eq!(parse_expr("x >= 1"), Expr::EBinop(Binop::BGe, var("x"), constant(1)));
}

#[test]
fn call_1() {
    assert_eq!(parse_expr("f(x)"), Expr::ECall(var("f"), vec![Expr::EVar(s("x"))]));
}

#[test]
fn call_3() {
    assert_eq!(
        parse_expr("f(x,1,2)"),
        Expr::ECall(var("f"), vec![Expr::EVar(s("x")), Expr::EConst(1), Expr::EConst(2)])
    );
    assert_eq!(parse_expr("f()"), Expr::ECall(var("f"), vec![]));
}

#[test]
fn double_assign_var_expr() {
    assert_eq!(
        parse_expr("y = x = 1"),
        Expr::EAssign(var("y"), Box::new(Expr::EAssign(var("x"), constant(1))))
    );
}

#[test]
fn assign_var_stmt() {
    assert_eq!(parse_stmt("x = 1;"), Stmt::SExpr(Expr::EAssign(var("x"), constant(1))));
}

#[test]
fn operators_group_to_the_left_and_by_level() {
    assert_eq!(
        parse_expr("a - b - c"),
        Expr::EBinop(
            Binop::BSub,
            Box::new(Expr::EBinop(Binop::BSub, var("a"), var("b"))),
            var("c")
        )
    );
    assert_eq!(
        parse_expr("a + b * c"),
        Expr::EBinop(
            Binop::BAdd,
            var("a"),
            Box::new(Expr::EBinop(Binop::BMul, var("b"), var("c")))
        )
    );
    assert_eq!(
        parse_expr("(a + b) * c"),
        Expr::EBinop(
            Binop::BMul,
            Box::new(Expr::EBinop(Binop::BAdd, var("a"), var("b"))),
            var("c")
        )
    );
    assert_eq!(
        parse_expr("a || b && c == d < e"),
        Expr::EBinop(
            Binop::BOr,
            var("a"),
            Box::new(Expr::EBinop(
                Binop::BAnd,
                var("b"),
                Box::new(Expr::EBinop(
                    Binop::BEq,
                    var("c"),
                    Box::new(Expr::EBinop(Binop::BLt, var("d"), var("e")))
                ))
            ))
        )
    );
}

#[test]
fn postfix_and_unary_forms() {
    assert_eq!(
        parse_expr("p->a->b"),
        Expr::EArrow(Box::new(Expr::EArrow(var("p"), s("a"))), s("b"))
    );
    assert_eq!(
        parse_expr("-!x"),
        Expr::EUnop(Unop::UMinus, Box::new(Expr::EUnop(Unop::UNot, var("x"))))
    );
    assert_eq!(parse_expr("sizeof(struct S)"), Expr::ESizeof(s("S")));
    assert_eq!(
        parse_expr("p->a = 42"),
        Expr::EAssign(Box::new(Expr::EArrow(var("p"), s("a"))), constant(42))
    );
}

#[test]
fn selection_and_iteration() {
    assert_eq!(
        parse_stmt("if (x) y; else z;"),
        Stmt::SIf(
            Expr::EVar(s("x")),
            Box::new(Stmt::SExpr(Expr::EVar(s("y")))),
            Box::new(Stmt::SExpr(Expr::EVar(s("z"))))
        )
    );
    assert_eq!(
        parse_stmt("if (x) y;"),
        Stmt::SIf(
            Expr::EVar(s("x")),
            Box::new(Stmt::SExpr(Expr::EVar(s("y")))),
            Box::new(Stmt::SSkip)
        )
    );
    assert_eq!(
        parse_stmt("while (x) {}"),
        Stmt::SWhile(Expr::EVar(s("x")), Box::new(Stmt::SBlock(Block::new(vec![], vec![]))))
    );
}

#[test]
fn block_raw() {
    let source = "{int x; x+y;}";
    let tokens = lex(source.as_bytes());
    let (parsed, end) = block(source.as_bytes(), &tokens, 0).expect("block");
    assert!(eof(&tokens, end));
    assert_eq!(
        parsed,
        Block::new(
            vec![Formal::new(s("x"), Typ::TInt)],
            vec![Stmt::SExpr(Expr::EBinop(Binop::BAdd, var("x"), var("y")))]
        )
    );
}

#[test]
fn declarations_of_several_variables() {
    let source = "{int x, y; struct S *p, *q;}";
    let tokens = lex(source.as_bytes());
    let (parsed, _) = block(source.as_bytes(), &tokens, 0).expect("block");
    assert_eq!(
        parsed.vars,
        vec![
            Formal::new(s("x"), Typ::TInt),
            Formal::new(s("y"), Typ::TInt),
            Formal::new(s("p"), Typ::TStruct(s("S"))),
            Formal::new(s("q"), Typ::TStruct(s("S"))),
        ]
    );
}

#[test]
fn parse_fun() {
    let source = "int f(int a) { int x; return a;}";
    let tokens = lex(source.as_bytes());
    let (parsed, end) = decl_fun(source.as_bytes(), &tokens, 0).expect("function");
    assert!(eof(&tokens, end));
    assert_eq!(
        parsed,
        Fun::new(
            Formal::new(s("f"), Typ::TInt),
            vec![Formal::new(s("a"), Typ::TInt)],
            Block::new(
                vec![Formal::new(s("x"), Typ::TInt)],
                vec![Stmt::SReturn(Expr::EVar(s("a")))]
            )
        )
    );
}

#[test]
fn parse_fun_multiple_args() {
    let source = "int f(int a, int b, int c) { }";
    let tokens = lex(source.as_bytes());
    let (parsed, _) = decl_fun(source.as_bytes(), &tokens, 0).expect("function");
    assert_eq!(
        parsed,
        Fun::new(
            Formal::new(s("f"), Typ::TInt),
            vec![
                Formal::new(s("a"), Typ::TInt),
                Formal::new(s("b"), Typ::TInt),
                Formal::new(s("c"), Typ::TInt)
            ],
            Block::new(vec![], vec![])
        )
    );
}

#[test]
fn parse_struct() {
    let source = "struct S { int a; };";
    let tokens = lex(source.as_bytes());
    let (parsed, end) = decl_struct(source.as_bytes(), &tokens, 0).expect("struct");
    assert!(eof(&tokens, end));
    assert_eq!(parsed, Struct::new(s("S"), vec![Formal::new(s("a"), Typ::TInt)]));
}

#[test]
fn file_single_fun() {
    assert_eq!(
        parse_file("int f() {return x;}"),
        Ok(File::new(
            vec![Fun::new(
                Formal::new(s("f"), Typ::TInt),
                vec![],
                Block::new(vec![], vec![Stmt::SReturn(Expr::EVar(s("x")))])
            )],
            vec![]
        ))
    );
}

#[test]
fn file_fun_and_struct() {
    let source =
        "struct S { int a; }; int main() { int x; { struct S *x; x->a = 42; } x = 1; }";
    assert_eq!(
        parse_file(source),
        Ok(File::new(
            vec![Fun::new(
                Formal::new(s("main"), Typ::TInt),
                vec![],
                Block::new(
                    vec![Formal::new(s("x"), Typ::TInt)],
                    vec![
                        Stmt::SBlock(Block::new(
                            vec![Formal::new(s("x"), Typ::TStruct(s("S")))],
                            vec![Stmt::SExpr(Expr::EAssign(
                                Box::new(Expr::EArrow(var("x"), s("a"))),
                                constant(42)
                            ))]
                        )),
                        Stmt::SExpr(Expr::EAssign(var("x"), constant(1)))
                    ]
                )
            )],
            vec![Struct::new(s("S"), vec![Formal::new(s("a"), Typ::TInt)])]
        ))
    );
}

#[test]
fn what_is_no_program_is_a_syntax_error() {
    assert_eq!(parse_file("int f() { return x }"), Err(ParserError::Syntax));
    assert_eq!(parse_file("int f() {} }"), Err(ParserError::Syntax));
    assert_eq!(parse_file("int 3() {}"), Err(ParserError::Syntax));
    assert_eq!(parse_file("int f() { x = # ; }"), Err(ParserError::Syntax));
    assert_eq!(parse_file(""), Ok(File::new(vec![], vec![])));
}

#[test]
fn names_are_read_from_the_source() {
    let source = "abc";
    let tokens = lex(source.as_bytes());
    assert_eq!(parse_tokens(source.as_bytes(), &tokens).is_err(), true);
    let (parsed, _) = expr(source.as_bytes(), &tokens, 0).expect("expression");
    assert_eq!(parsed, Expr::EVar(s("abc")));
    let other = "xyz";
    let (parsed, _) = expr(other.as_bytes(), &tokens, 0).expect("expression");
    assert_eq!(parsed, Expr::EVar(s("xyz")));
    let bad = "\u{e9}\u{e9}";
    assert!(expr(bad.as_bytes(), &tokens, 0).is_none());
}

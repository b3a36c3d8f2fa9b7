use minic::lexer::{Lexer, Token};

fn _test_value(to_test: &str, result: Vec<Token>) {
    let lexer = Token::lexer(to_test);

    for (expected, actual) in result.iter().zip(lexer.tokens()) {
        assert_eq!(expected, &actual)
    }
}

fn _test_hexadecimal_valid(to_test: &str, result: i32) {
    _test_value(to_test, vec![Token::HexConstant(result)])
}

fn tokens_of(input: &str) -> Vec<Token> {
    let lexer: Lexer = Token::lexer(input);
    lexer.tokens()
}

#[test]
fn hex_lower_0() {
    _test_hexadecimal_valid("0x0", 0)
}

#[test]
fn hex_lower_1() {
    _test_hexadecimal_valid("0x1", 1)
}

#[test]
fn hex_uppper_0() {
    _test_hexadecimal_valid("0X0", 0)
}

#[test]
fn hex_upper_1() {
    _test_hexadecimal_valid("0X1", 1)
}

#[test]
fn show() {
    let to_test = "int m() { return 1==2 && 3==4 || !(5>=6); }\n\n";
    let lexer = Token::lexer(to_test);
    let mut position = 0;

    while position < lexer.len() {
        let x = lexer.token(position);
        println!("{:?}", x);
        position += 1;
    }
    assert_eq!(lexer.len(), 22);
}

#[test]
fn test_all() {
    let string = "struct int if else \
        while return sizeof + - / * !  -> && \
        || != == <= >= < > ( ) { } ; , x\
         /* zzzz */ // zzzz \n 0 0x0 56 'a' '\\n'";
    _test_value(
        string,
        vec![
            Token::Struct,
            Token::Int,
            Token::If,
            Token::Else,
            Token::While,
            Token::Return,
            Token::Sizeof,
            Token::Plus,
            Token::Minus,
            Token::Div,
            Token::Star,
            Token::Bang,
            Token::Arrow,
            Token::AmpersandAmpersand,
            Token::VerticalBarVerticalBar,
            Token::BangEq,
            Token::EqEq,
            Token::Le,
            Token::Ge,
            Token::Lt,
            Token::Gt,
            Token::Lpar,
            Token::Rpar,
            Token::Lbrace,
            Token::Rbrace,
            Token::Semicolon,
            Token::Comma,
            Token::Ident,
            Token::OctalConstant(0),
            Token::HexConstant(0),
            Token::DecimalConstant(56),
            Token::CharConstant(97),
            Token::NewlineConstant,
        ],
    );
    assert_eq!(tokens_of(string).len(), 33);
}

#[test]
fn keywords_are_whole_words() {
    assert_eq!(tokens_of("integer intx int"), vec![Token::Ident, Token::Ident, Token::Int]);
    assert_eq!(tokens_of("sizeof_ _if"), vec![Token::Ident, Token::Ident]);
}

#[test]
fn longest_sign_wins() {
    assert_eq!(
        tokens_of("a->b - > <= < = =="),
        vec![
            Token::Ident,
            Token::Arrow,
            Token::Ident,
            Token::Minus,
            Token::Gt,
            Token::Le,
            Token::Lt,
            Token::Eq,
            Token::EqEq,
        ]
    );
}

#[test]
fn constants_that_do_not_fit_are_errors() {
    assert_eq!(tokens_of("2147483647"), vec![Token::DecimalConstant(2147483647)]);
    assert_eq!(tokens_of("2147483648"), vec![Token::Error]);
    assert_eq!(tokens_of("0x7fffffff"), vec![Token::HexConstant(2147483647)]);
    assert_eq!(tokens_of("0x80000000"), vec![Token::Error]);
    assert_eq!(tokens_of("0xff 0XAb"), vec![Token::HexConstant(255), Token::HexConstant(171)]);
}

#[test]
fn comments_are_skipped() {
    assert_eq!(tokens_of("a /* b */ c"), vec![Token::Ident, Token::Ident]);
    assert_eq!(tokens_of("a // b \n c"), vec![Token::Ident, Token::Ident]);
    assert_eq!(tokens_of("a /* open"), vec![Token::Ident, Token::Div, Token::Star, Token::Ident]);
    assert_eq!(tokens_of("a // last *)"), vec![Token::Ident]);
}

#[test]
fn lone_signs_are_errors() {
    assert_eq!(tokens_of("& | # '"), vec![Token::Error, Token::Error, Token::Error, Token::Error]);
    assert_eq!(tokens_of("0x"), vec![Token::OctalConstant(0), Token::Ident]);
}

#[test]
fn lexemes_carry_their_place() {
    let lexer = Token::lexer("ab  cd");
    assert_eq!(lexer.lexemes[0].start, 0);
    assert_eq!(lexer.lexemes[0].end, 2);
    assert_eq!(lexer.lexemes[1].start, 4);
    assert_eq!(lexer.lexemes[1].end, 6);
}

use vstd::prelude::*;
use vstd::string::StringSliceAdditionalSpecFns;

verus! {

/// The words and signs of the source language. An identifier is one token
/// whatever its spelling; a constant carries its value.
#[derive(Debug, PartialEq, Eq, Clone, Copy, Structural)]
pub enum Token {
    Struct,
    Int,
    If,
    Else,
    While,
    Return,
    Sizeof,
    Plus,
    Minus,
    Div,
    Bang,
    Arrow,
    Eq,
    EqEq,
    BangEq,
    Le,
    Lt,
    Ge,
    Gt,
    AmpersandAmpersand,
    VerticalBarVerticalBar,
    Lbrace,
    Rbrace,
    Lpar,
    Rpar,
    Semicolon,
    Star,
    Comma,
    Ident,
    DecimalConstant(i32),
    HexConstant(i32),
    OctalConstant(i32),
    CharConstant(i32),
    NewlineConstant,
    /// A comment between `/*` and `*/`; never handed out.
    BlockComment,
    /// A comment from `//` to the end of the line; never handed out.
    LineComment,
    /// Text that is no token, and a constant that does not fit 32 bits.
    Error,
}

/// A token with the bytes `start..end` of the input that spell it.
#[derive(Debug, PartialEq, Eq, Clone, Copy, Structural)]
pub struct Lexeme {
    pub token: Token,
    pub start: usize,
    pub end: usize,
}

/// The tokens of an input, in order.
#[derive(Debug)]
pub struct Lexer {
    pub lexemes: Vec<Lexeme>,
}

/// The kinds of bytes that runs are made of.
#[derive(Debug, PartialEq, Eq, Clone, Copy, Structural)]
pub enum Class {
    /// A letter, a digit or `_`.
    Word,
    /// `0` to `9`.
    Digit,
    /// `0` to `9`, `a` to `f`, `A` to `F`.
    Hex,
    /// `0` to `7`.
    Octal,
    /// Space, tab, line feed, form feed.
    Space,
    /// Anything but line feed and carriage return.
    Line,
}

pub open spec fn is_letter(b: u8) -> bool {
    (97 <= b <= 122) || (65 <= b <= 90) || b == 95
}

pub open spec fn is_digit(b: u8) -> bool {
    48 <= b <= 57
}

/// `b` is of the class `class`.
pub open spec fn in_class(class: Class, b: u8) -> bool {
    match class {
        Class::Word => is_letter(b) || is_digit(b),
        Class::Digit => is_digit(b),
        Class::Hex => is_digit(b) || (97 <= b <= 102) || (65 <= b <= 70),
        Class::Octal => 48 <= b <= 55,
        Class::Space => b == 32 || b == 9 || b == 10 || b == 12,
        Class::Line => b != 10 && b != 13,
    }
}

/// Where the run of bytes of `class` that starts at `from` ends.
pub open spec fn run_end(input: Seq<u8>, from: int, class: Class) -> int
    decreases input.len() - from,
{
    if 0 <= from < input.len() && in_class(class, input[from]) {
        run_end(input, from + 1, class)
    } else {
        from
    }
}

/// The value of the digit `b` in a base up to 16.
pub open spec fn digit_value(b: u8) -> int {
    if is_digit(b) {
        b - 48
    } else if 97 <= b <= 102 {
        b - 87
    } else {
        b - 55
    }
}

/// The value of the digits `input[from..to]` in the base `base`, where it
/// fits 32 bits.
pub open spec fn number(input: Seq<u8>, from: int, to: int, base: int) -> Option<i32>
    decreases to - from,
{
    if to <= from {
        Some(0i32)
    } else {
        match number(input, from, to - 1, base) {
            Some(value) => {
                let next = value * base + digit_value(input[to - 1]);
                if next <= i32::MAX {
                    Some(next as i32)
                } else {
                    None
                }
            },
            None => None,
        }
    }
}

/// The constant with the given value, or `Error` where there is none.
pub open spec fn constant(kind: Token, value: Option<i32>) -> Token {
    match value {
        Some(v) => match kind {
            Token::DecimalConstant(_) => Token::DecimalConstant(v),
            Token::HexConstant(_) => Token::HexConstant(v),
            _ => Token::OctalConstant(v),
        },
        None => Token::Error,
    }
}

/// The keyword that the bytes `input[from..to]` spell, or `Ident`.
pub open spec fn word(input: Seq<u8>, from: int, to: int) -> Token {
    let w = input.subrange(from, to);
    if w == seq![115u8, 116, 114, 117, 99, 116] {
        Token::Struct
    } else if w == seq![105u8, 110, 116] {
        Token::Int
    } else if w == seq![105u8, 102] {
        Token::If
    } else if w == seq![101u8, 108, 115, 101] {
        Token::Else
    } else if w == seq![119u8, 104, 105, 108, 101] {
        Token::While
    } else if w == seq![114u8, 101, 116, 117, 114, 110] {
        Token::Return
    } else if w == seq![115u8, 105, 122, 101, 111, 102] {
        Token::Sizeof
    } else {
        Token::Ident
    }
}

/// Where the block comment whose inside starts at `from` ends, just after
/// its `*/`; `None` where it is not closed. Inside it a `*` takes the byte
/// after it along, unless that is `/`.
pub open spec fn block_end(input: Seq<u8>, from: int) -> Option<int>
    decreases input.len() - from,
{
    if from < 0 || from >= input.len() {
        None
    } else if input[from] != 42 {
        block_end(input, from + 1)
    } else if from + 1 >= input.len() {
        None
    } else if input[from + 1] == 47 {
        Some(from + 2)
    } else {
        block_end(input, from + 2)
    }
}

/// Where the last `*)` of `input[from..to]` ends; `None` where there is
/// none.
pub open spec fn last_star_paren(input: Seq<u8>, from: int, to: int) -> Option<int>
    decreases to - from,
{
    if to - from < 2 || to > input.len() || from < 0 {
        None
    } else if input[to - 2] == 42 && input[to - 1] == 41 {
        Some(to)
    } else {
        last_star_paren(input, from, to - 1)
    }
}

/// Where the line comment whose inside starts at `from` ends: after the
/// end of its line; in a last line without an end, after its last `*)`.
pub open spec fn line_end(input: Seq<u8>, from: int) -> Option<int> {
    let stop = run_end(input, from, Class::Line);
    if stop < input.len() {
        Some(stop + 1)
    } else {
        last_star_paren(input, from, stop)
    }
}

/// The byte at `at`, or 0 past the end.
pub open spec fn peek(input: Seq<u8>, at: int) -> u8 {
    if 0 <= at < input.len() {
        input[at]
    } else {
        0
    }
}

/// What starts at `pos`: a token, or `None` for white space and comments,
/// with the place where it ends. The longest token wins.
pub open spec fn scan_model(input: Seq<u8>, pos: int) -> (Option<Token>, int) {
    let b = peek(input, pos);
    let c = peek(input, pos + 1);
    if in_class(Class::Space, b) {
        (None, run_end(input, pos, Class::Space))
    } else if is_letter(b) {
        let end = run_end(input, pos, Class::Word);
        (Some(word(input, pos, end)), end)
    } else if 49 <= b <= 57 {
        let end = run_end(input, pos, Class::Digit);
        (Some(constant(Token::DecimalConstant(0), number(input, pos, end, 10))), end)
    } else if b == 48 {
        let hex = run_end(input, pos + 2, Class::Hex);
        if (c == 120 || c == 88) && hex > pos + 2 {
            (Some(constant(Token::HexConstant(0), number(input, pos + 2, hex, 16))), hex)
        } else {
            let end = run_end(input, pos + 1, Class::Octal);
            (Some(constant(Token::OctalConstant(0), number(input, pos, end, 10))), end)
        }
    } else if b == 39 {
        if c == 92 && peek(input, pos + 2) == 110 && peek(input, pos + 3) == 39 {
            (Some(Token::NewlineConstant), pos + 4)
        } else if pos + 2 < input.len() && c != 10 && c < 128 && input[pos + 2] == 39 {
            (Some(Token::CharConstant(c as i32)), pos + 3)
        } else {
            (Some(Token::Error), pos + 1)
        }
    } else if b == 47 {
        if c == 42 && block_end(input, pos + 2) is Some {
            (None, block_end(input, pos + 2)->Some_0)
        } else if c == 47 && line_end(input, pos + 2) is Some {
            (None, line_end(input, pos + 2)->Some_0)
        } else {
            (Some(Token::Div), pos + 1)
        }
    } else if b == 45 {
        if c == 62 {
            (Some(Token::Arrow), pos + 2)
        } else {
            (Some(Token::Minus), pos + 1)
        }
    } else if b == 61 {
        if c == 61 {
            (Some(Token::EqEq), pos + 2)
        } else {
            (Some(Token::Eq), pos + 1)
        }
    } else if b == 33 {
        if c == 61 {
            (Some(Token::BangEq), pos + 2)
        } else {
            (Some(Token::Bang), pos + 1)
        }
    } else if b == 60 {
        if c == 61 {
            (Some(Token::Le), pos + 2)
        } else {
            (Some(Token::Lt), pos + 1)
        }
    } else if b == 62 {
        if c == 61 {
            (Some(Token::Ge), pos + 2)
        } else {
            (Some(Token::Gt), pos + 1)
        }
    } else if b == 38 && c == 38 {
        (Some(Token::AmpersandAmpersand), pos + 2)
    } else if b == 124 && c == 124 {
        (Some(Token::VerticalBarVerticalBar), pos + 2)
    } else if b == 43 {
        (Some(Token::Plus), pos + 1)
    } else if b == 42 {
        (Some(Token::Star), pos + 1)
    } else if b == 123 {
        (Some(Token::Lbrace), pos + 1)
    } else if b == 125 {
        (Some(Token::Rbrace), pos + 1)
    } else if b == 40 {
        (Some(Token::Lpar), pos + 1)
    } else if b == 41 {
        (Some(Token::Rpar), pos + 1)
    } else if b == 59 {
        (Some(Token::Semicolon), pos + 1)
    } else if b == 44 {
        (Some(Token::Comma), pos + 1)
    } else {
        (Some(Token::Error), pos + 1)
    }
}

/// The tokens of `input` from `pos` on, after those of `done`.
pub open spec fn lex_model(input: Seq<u8>, pos: int, done: Seq<Lexeme>) -> Seq<Lexeme>
    decreases input.len() - pos,
{
    if 0 <= pos < input.len() {
        let (token, end) = scan_model(input, pos);
        if pos < end <= input.len() {
            lex_model(
                input,
                end,
                match token {
                    Some(token) => done.push(
                        Lexeme { token, start: pos as usize, end: end as usize },
                    ),
                    None => done,
                },
            )
        } else {
            done
        }
    } else {
        done
    }
}

/// A run ends at or after its start, within the input.
pub proof fn lemma_run_end(input: Seq<u8>, from: int, class: Class)
    requires
        0 <= from <= input.len(),
    ensures
        from <= run_end(input, from, class) <= input.len(),
        from < input.len() && in_class(class, input[from]) ==> from < run_end(input, from, class),
    decreases input.len() - from,
{
    if from < input.len() && in_class(class, input[from]) {
        lemma_run_end(input, from + 1, class);
    }
}

/// Whether `b` is of the class `class`.
pub fn of_class(class: Class, b: u8) -> (r: bool)
    ensures
        r == in_class(class, b),
{
    match class {
        Class::Word => (97 <= b && b <= 122) || (65 <= b && b <= 90) || b == 95 || (48 <= b && b
            <= 57),
        Class::Digit => 48 <= b && b <= 57,
        Class::Hex => (48 <= b && b <= 57) || (97 <= b && b <= 102) || (65 <= b && b <= 70),
        Class::Octal => 48 <= b && b <= 55,
        Class::Space => b == 32 || b == 9 || b == 10 || b == 12,
        Class::Line => b != 10 && b != 13,
    }
}

/// Where the run of bytes of `class` that starts at `from` ends.
pub fn skip(input: &[u8], from: usize, class: Class) -> (r: usize)
    requires
        from <= input@.len(),
    ensures
        r == run_end(input@, from as int, class),
        from <= r <= input@.len(),
{
    let mut i = from;
    while i < input.len() && of_class(class, input[i])
        invariant
            from <= i <= input@.len(),
            run_end(input@, from as int, class) == run_end(input@, i as int, class),
        decreases input@.len() - i,
    {
        i = i + 1;
    }
    i
}

/// The value of the digits `input[from..to]` in the base `base`, where it
/// fits 32 bits.
pub fn parse_number(input: &[u8], from: usize, to: usize, base: i64) -> (r: Option<i32>)
    requires
        from <= to <= input@.len(),
        base == 10 || base == 16,
        forall|i: int| from <= i < to ==> in_class(Class::Hex, #[trigger] input@[i]),
    ensures
        r == number(input@, from as int, to as int, base as int),
{
    let mut value: i64 = 0;
    let mut i = from;
    while i < to
        invariant
            from <= i <= to <= input@.len(),
            base == 10 || base == 16,
            forall|k: int| from <= k < to ==> in_class(Class::Hex, #[trigger] input@[k]),
            number(input@, from as int, i as int, base as int) == Some(value as i32),
            0 <= value <= i32::MAX,
        decreases to - i,
    {
        let b = input[i];
        assert(in_class(Class::Hex, input@[i as int]));
        let digit: i64 = if 48 <= b && b <= 57 {
            (b - 48) as i64
        } else if 97 <= b && b <= 102 {
            (b - 87) as i64
        } else {
            (b - 55) as i64
        };
        let next = if base == 10 {
            value * 10 + digit
        } else {
            value * 16 + digit
        };
        if next > 0x7fff_ffff {
            proof {
                lemma_number_overflow(input@, from as int, i as int + 1, to as int, base as int);
            }
            return None;
        }
        value = next;
        i = i + 1;
    }
    Some(value as i32)
}

/// A number that does not fit stays so when digits follow.
pub proof fn lemma_number_overflow(input: Seq<u8>, from: int, mid: int, to: int, base: int)
    requires
        from <= mid <= to,
        number(input, from, mid, base) is None,
    ensures
        number(input, from, to, base) is None,
    decreases to - mid,
{
    if mid < to {
        lemma_number_overflow(input, from, mid, to - 1, base);
    }
}

/// Every byte of a run is of its class.
pub proof fn lemma_run_class(input: Seq<u8>, from: int, class: Class)
    requires
        0 <= from <= input.len(),
    ensures
        forall|i: int|
            from <= i < run_end(input, from, class) ==> in_class(class, #[trigger] input[i]),
    decreases input.len() - from,
{
    if from < input.len() && in_class(class, input[from]) {
        lemma_run_class(input, from + 1, class);
    }
}

/// Whether `input[from..to]` is the word `w`.
fn spells(input: &[u8], from: usize, to: usize, w: &[u8]) -> (r: bool)
    requires
        from <= to <= input@.len(),
    ensures
        r == (input@.subrange(from as int, to as int) == w@),
{
    if to - from != w.len() {
        return false;
    }
    let mut i: usize = 0;
    while i < w.len()
        invariant
            from <= to <= input@.len(),
            to - from == w@.len(),
            i <= w@.len(),
            forall|k: int| 0 <= k < i ==> input@[from + k] == w@[k],
        decreases w@.len() - i,
    {
        if input[from + i] != w[i] {
            assert(input@.subrange(from as int, to as int)[i as int] != w@[i as int]);
            return false;
        }
        i = i + 1;
    }
    assert(input@.subrange(from as int, to as int) =~= w@);
    true
}

/// The keyword that the bytes `input[from..to]` spell, or `Ident`.
pub fn keyword(input: &[u8], from: usize, to: usize) -> (r: Token)
    requires
        from <= to <= input@.len(),
    ensures
        r == word(input@, from as int, to as int),
{
    let kw_struct: [u8; 6] = [115, 116, 114, 117, 99, 116];
    let kw_int: [u8; 3] = [105, 110, 116];
    let kw_if: [u8; 2] = [105, 102];
    let kw_else: [u8; 4] = [101, 108, 115, 101];
    let kw_while: [u8; 5] = [119, 104, 105, 108, 101];
    let kw_return: [u8; 6] = [114, 101, 116, 117, 114, 110];
    let kw_sizeof: [u8; 6] = [115, 105, 122, 101, 111, 102];
    proof {
        assert(kw_struct@ =~= seq![115u8, 116, 114, 117, 99, 116]);
        assert(kw_int@ =~= seq![105u8, 110, 116]);
        assert(kw_if@ =~= seq![105u8, 102]);
        assert(kw_else@ =~= seq![101u8, 108, 115, 101]);
        assert(kw_while@ =~= seq![119u8, 104, 105, 108, 101]);
        assert(kw_return@ =~= seq![114u8, 101, 116, 117, 114, 110]);
        assert(kw_sizeof@ =~= seq![115u8, 105, 122, 101, 111, 102]);
    }
    if spells(input, from, to, kw_struct.as_slice()) {
        Token::Struct
    } else if spells(input, from, to, kw_int.as_slice()) {
        Token::Int
    } else if spells(input, from, to, kw_if.as_slice()) {
        Token::If
    } else if spells(input, from, to, kw_else.as_slice()) {
        Token::Else
    } else if spells(input, from, to, kw_while.as_slice()) {
        Token::While
    } else if spells(input, from, to, kw_return.as_slice()) {
        Token::Return
    } else if spells(input, from, to, kw_sizeof.as_slice()) {
        Token::Sizeof
    } else {
        Token::Ident
    }
}

/// Where the block comment whose inside starts at `from` ends.
pub fn find_block_end(input: &[u8], from: usize) -> (r: Option<usize>)
    requires
        from <= input@.len(),
    ensures
        match r {
            Some(end) => block_end(input@, from as int) == Some(end as int) && from < end
                <= input@.len(),
            None => block_end(input@, from as int) is None,
        },
{
    let mut i = from;
    while i < input.len()
        invariant
            from <= i <= input@.len() + 1,
            block_end(input@, from as int) == block_end(input@, i as int),
        decreases input@.len() + 1 - i,
    {
        if input[i] != 42 {
            i = i + 1;
        } else if i + 1 >= input.len() {
            return None;
        } else if input[i + 1] == 47 {
            return Some(i + 2);
        } else {
            i = i + 2;
        }
    }
    None
}

/// Where the line comment whose inside starts at `from` ends.
pub fn find_line_end(input: &[u8], from: usize) -> (r: Option<usize>)
    requires
        from <= input@.len() < usize::MAX - 4,
    ensures
        match r {
            Some(end) => line_end(input@, from as int) == Some(end as int) && from < end
                <= input@.len(),
            None => line_end(input@, from as int) is None,
        },
{
    let stop = skip(input, from, Class::Line);
    if stop < input.len() {
        return Some(stop + 1);
    }
    let mut to = stop;
    while to >= from + 2
        invariant
            from <= to <= stop,
            stop == input@.len(),
            stop == run_end(input@, from as int, Class::Line),
            input@.len() < usize::MAX - 4,
            last_star_paren(input@, from as int, stop as int) == last_star_paren(
                input@,
                from as int,
                to as int,
            ),
        decreases to,
    {
        if input[to - 2] == 42 && input[to - 1] == 41 {
            assert(last_star_paren(input@, from as int, to as int) == Some(to as int));
            return Some(to);
        }
        to = to - 1;
    }
    None
}

/// The byte at `at`, or 0 past the end.
pub fn byte_at(input: &[u8], at: usize) -> (r: u8)
    ensures
        r == peek(input@, at as int),
{
    if at < input.len() {
        input[at]
    } else {
        0
    }
}

/// The constant of the kind `kind` with the given value.
pub fn make_constant(kind: Token, value: Option<i32>) -> (r: Token)
    ensures
        r == constant(kind, value),
{
    match value {
        Some(v) => match kind {
            Token::DecimalConstant(_) => Token::DecimalConstant(v),
            Token::HexConstant(_) => Token::HexConstant(v),
            _ => Token::OctalConstant(v),
        },
        None => Token::Error,
    }
}

/// What starts at `pos`: a token, or `None` for white space and comments,
/// with the place where it ends.
pub fn scan(input: &[u8], pos: usize) -> (r: (Option<Token>, usize))
    requires
        pos < input@.len(),
        input@.len() < usize::MAX - 4,
    ensures
        r.0 == scan_model(input@, pos as int).0,
        r.1 == scan_model(input@, pos as int).1,
        pos < r.1 <= input@.len(),
{
    let b = input[pos];
    let c = byte_at(input, pos + 1);
    proof {
        lemma_run_end(input@, pos as int, Class::Space);
        lemma_run_end(input@, pos as int, Class::Word);
        lemma_run_end(input@, pos as int, Class::Digit);
        lemma_run_class(input@, pos as int, Class::Digit);
        lemma_run_end(input@, pos as int + 1, Class::Octal);
        lemma_run_class(input@, pos as int + 1, Class::Octal);
    }
    if of_class(Class::Space, b) {
        (None, skip(input, pos, Class::Space))
    } else if (97 <= b && b <= 122) || (65 <= b && b <= 90) || b == 95 {
        let end = skip(input, pos, Class::Word);
        (Some(keyword(input, pos, end)), end)
    } else if 49 <= b && b <= 57 {
        let end = skip(input, pos, Class::Digit);
        (Some(make_constant(Token::DecimalConstant(0), parse_number(input, pos, end, 10))), end)
    } else if b == 48 {
        if (c == 120 || c == 88) && pos + 2 <= input.len() {
            let hex = skip(input, pos + 2, Class::Hex);
            if hex > pos + 2 {
                proof {
                    lemma_run_class(input@, pos as int + 2, Class::Hex);
                }
                return (
                    Some(
                        make_constant(
                            Token::HexConstant(0),
                            parse_number(input, pos + 2, hex, 16),
                        ),
                    ),
                    hex,
                );
            }
        }
        let end = skip(input, pos + 1, Class::Octal);
        (Some(make_constant(Token::OctalConstant(0), parse_number(input, pos, end, 10))), end)
    } else if b == 39 {
        if c == 92 && byte_at(input, pos + 2) == 110 && byte_at(input, pos + 3) == 39 {
            (Some(Token::NewlineConstant), pos + 4)
        } else if pos + 2 < input.len() && c != 10 && c < 128 && input[pos + 2] == 39 {
            (Some(Token::CharConstant(c as i32)), pos + 3)
        } else {
            (Some(Token::Error), pos + 1)
        }
    } else if b == 47 {
        if c == 42 {
            match find_block_end(input, pos + 2) {
                Some(end) => {
                    return (None, end);
                },
                None => {},
            }
        }
        if c == 47 {
            match find_line_end(input, pos + 2) {
                Some(end) => {
                    return (None, end);
                },
                None => {},
            }
        }
        (Some(Token::Div), pos + 1)
    } else if b == 45 {
        if c == 62 {
            (Some(Token::Arrow), pos + 2)
        } else {
            (Some(Token::Minus), pos + 1)
        }
    } else if b == 61 {
        if c == 61 {
            (Some(Token::EqEq), pos + 2)
        } else {
            (Some(Token::Eq), pos + 1)
        }
    } else if b == 33 {
        if c == 61 {
            (Some(Token::BangEq), pos + 2)
        } else {
            (Some(Token::Bang), pos + 1)
        }
    } else if b == 60 {
        if c == 61 {
            (Some(Token::Le), pos + 2)
        } else {
            (Some(Token::Lt), pos + 1)
        }
    } else if b == 62 {
        if c == 61 {
            (Some(Token::Ge), pos + 2)
        } else {
            (Some(Token::Gt), pos + 1)
        }
    } else if b == 38 && c == 38 {
        (Some(Token::AmpersandAmpersand), pos + 2)
    } else if b == 124 && c == 124 {
        (Some(Token::VerticalBarVerticalBar), pos + 2)
    } else if b == 43 {
        (Some(Token::Plus), pos + 1)
    } else if b == 42 {
        (Some(Token::Star), pos + 1)
    } else if b == 123 {
        (Some(Token::Lbrace), pos + 1)
    } else if b == 125 {
        (Some(Token::Rbrace), pos + 1)
    } else if b == 40 {
        (Some(Token::Lpar), pos + 1)
    } else if b == 41 {
        (Some(Token::Rpar), pos + 1)
    } else if b == 59 {
        (Some(Token::Semicolon), pos + 1)
    } else if b == 44 {
        (Some(Token::Comma), pos + 1)
    } else {
        (Some(Token::Error), pos + 1)
    }
}

/// The tokens of `input`, in order, without white space and comments.
pub fn lex(input: &[u8]) -> (r: Vec<Lexeme>)
    requires
        input@.len() < usize::MAX - 4,
    ensures
        r@ == lex_model(input@, 0, Seq::empty()),
        r@.len() <= input@.len(),
{
    let mut out: Vec<Lexeme> = Vec::new();
    let mut pos: usize = 0;
    while pos < input.len()
        invariant
            pos <= input@.len() < usize::MAX - 4,
            out@.len() <= pos,
            lex_model(input@, 0, Seq::empty()) == lex_model(input@, pos as int, out@),
        decreases input@.len() - pos,
    {
        let (token, end) = scan(input, pos);
        match token {
            Some(token) => {
                out.push(Lexeme { token, start: pos, end });
            },
            None => {},
        }
        pos = end;
    }
    out
}

impl Token {
    /// The tokens of `input`.
    pub fn lexer(input: &str) -> (r: Lexer)
        requires
            input.spec_bytes().len() < usize::MAX - 4,
        ensures
            r.lexemes@ == lex_model(input.spec_bytes(), 0, Seq::empty()),
    {
        Lexer { lexemes: lex(input.as_bytes()) }
    }
}

impl Lexer {
    /// The number of tokens.
    pub fn len(&self) -> (n: usize)
        ensures
            n == self.lexemes@.len(),
    {
        self.lexemes.len()
    }

    /// The `i`-th token.
    pub fn token(&self, i: usize) -> (r: Token)
        requires
            i < self.lexemes@.len(),
        ensures
            r == self.lexemes@[i as int].token,
    {
        self.lexemes[i].token
    }

    /// The tokens, in order.
    pub fn tokens(&self) -> (r: Vec<Token>)
        ensures
            r@.len() == self.lexemes@.len(),
            forall|i: int| 0 <= i < r@.len() ==> r@[i] == self.lexemes@[i].token,
    {
        let mut out: Vec<Token> = Vec::new();
        let mut i: usize = 0;
        while i < self.lexemes.len()
            invariant
                i <= self.lexemes@.len(),
                out@.len() == i,
                forall|k: int| 0 <= k < i ==> out@[k] == self.lexemes@[k].token,
            decreases self.lexemes@.len() - i,
        {
            out.push(self.lexemes[i].token);
            i = i + 1;
        }
        out
    }
}

} // verus!

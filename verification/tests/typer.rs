use minic::common::{Ident, MAIN, MALLOC, PUTCHAR};
use minic::minic_parse;
use minic::typer::context::FileContext;
use minic::typer::error::{IncompatibleTyp, TypError};
use minic::typer::structure::{BlockIdent, ExprNode, Field, File, Signature, Stmt, Struct, Typ};
use minic::typer::{typ_file, typed_as};

fn typ(source: &str) -> Result<File, TypError> {
    minic_parse(source).expect("parse").minic_typ()
}

fn error_of(source: &str) -> TypError {
    match typ(source) {
        Ok(_) => panic!("typed"),
        Err(error) => error,
    }
}

fn wrong(expected: Typ, actual: Typ) -> TypError {
    TypError::WrongExpressionTyp(IncompatibleTyp::new(expected, actual))
}

#[test]
fn a_program_is_typed() {
    let typed = typ("struct S { int a; int b; }; int f(int x, struct S *p) { int y; { int z; z = x; } return p->b; } int main() { return f(1, 0); }")
        .expect("typed");
    assert_eq!(typed.names[0], "main");
    assert_eq!(typed.names[1], "putchar");
    assert_eq!(typed.names[2], "malloc");
    assert_eq!(typed.funs.len(), 2);
    assert_eq!(typed.structs.len(), 1);
    let structure = &typed.structs[0];
    assert_eq!(typed.names[structure.name.id as usize], "S");
    assert_eq!(structure.c_size(), Some(16));
    assert_eq!(structure.fields[1].index, 1);
    assert_eq!(structure.fields[1].c_offset(), 8);
    let f = &typed.funs[0];
    assert_eq!(typed.names[f.signature.name.id as usize], "f");
    assert_eq!(f.signature.typ, Typ::TInt);
    assert_eq!(f.signature.args.len(), 2);
    assert!(matches!(f.signature.args[0].name, BlockIdent::Arg(0, _)));
    assert!(matches!(f.signature.args[1].name, BlockIdent::Arg(1, _)));
    assert_eq!(f.signature.args[1].typ, Typ::TStruct(structure.name));
    assert_eq!(f.locals.len(), 2);
    assert!(matches!(f.locals[0], BlockIdent::Local(1, _)));
    assert!(matches!(f.locals[1], BlockIdent::Local(2, _)));
    match &f.block.stmts[1] {
        Stmt::SReturn(expr) => {
            assert_eq!(expr.typ, Typ::TInt);
            match &expr.node {
                ExprNode::EAccessField(_, field) => assert_eq!(field.index, 1),
                other => panic!("{:?}", other),
            }
        }
        other => panic!("{:?}", other),
    }
    assert_eq!(typed.funs[1].signature.name.id, MAIN);
}

#[test]
fn the_types_that_go_together() {
    let s = Typ::TStruct(Ident::new(7));
    let t = Typ::TStruct(Ident::new(8));
    assert!(typed_as(&Typ::TInt, &Typ::TInt));
    assert!(typed_as(&Typ::TTypeNull, &Typ::TInt));
    assert!(typed_as(&Typ::TInt, &Typ::TTypeNull));
    assert!(typed_as(&Typ::TTypeNull, &s));
    assert!(typed_as(&s, &Typ::TTypeNull));
    assert!(typed_as(&Typ::TVoidStar, &s));
    assert!(typed_as(&s, &Typ::TVoidStar));
    assert!(typed_as(&s, &s));
    assert!(!typed_as(&s, &t));
    assert!(!typed_as(&Typ::TInt, &s));
    assert!(!typed_as(&Typ::TInt, &Typ::TVoidStar));
    assert!(!typed_as(&Typ::TVoidStar, &Typ::TTypeNull));
}

#[test]
fn sizeof_is_eight_bytes_a_field() {
    let typed =
        typ("struct S { int a; int b; int c; }; int main() { return sizeof(struct S); }")
            .expect("typed");
    match &typed.funs[0].block.stmts[0] {
        Stmt::SReturn(expr) => assert!(matches!(expr.node, ExprNode::EConst(24))),
        other => panic!("{:?}", other),
    }
    assert_eq!(Struct::new(Ident::new(9), vec![]).c_size(), Some(0));
    assert_eq!(Field::new(Ident::new(9), 3, Typ::TInt).c_offset(), 24);
}

#[test]
fn signatures_of_the_primitives() {
    let putchar = Signature::putchar(Ident::new(3));
    assert_eq!(putchar.name.id, PUTCHAR);
    assert_eq!(putchar.typ, Typ::TInt);
    assert_eq!(putchar.args.len(), 1);
    let malloc = Signature::malloc(Ident::new(4));
    assert_eq!(malloc.name.id, MALLOC);
    assert_eq!(malloc.typ, Typ::TVoidStar);
    let main = Signature::main();
    assert_eq!(main.name.id, MAIN);
    assert!(main.args.is_empty());
    let context = FileContext::default();
    assert_eq!(context.names.len(), 5);
    assert_eq!(context.funs.len(), 2);
}

#[test]
fn every_kind_of_error() {
    assert_eq!(error_of("int main() { return x; }"), TypError::VariableDoesNotExist);
    assert_eq!(
        error_of("int main() { struct S *p; return 0; }"),
        TypError::StructDoesNotExist
    );
    assert_eq!(
        error_of("int main() { return sizeof(struct S); }"),
        TypError::StructDoesNotExist
    );
    assert!(matches!(
        error_of("int main() { int x; int x; return 0; }"),
        TypError::DuplicateVarName(_)
    ));
    assert!(matches!(
        error_of("int f() { return 0; } int f() { return 0; } int main() { return 0; }"),
        TypError::DuplicateFunName(_)
    ));
    assert!(matches!(
        error_of("int putchar(int c) { return 0; } int main() { return 0; }"),
        TypError::DuplicateFunName(name) if name.id == PUTCHAR
    ));
    assert!(matches!(
        error_of("struct S { int a; }; struct S { int b; }; int main() { return 0; }"),
        TypError::DuplicateStructName(_)
    ));
    assert_eq!(
        error_of("int main() { int x; return x->a; }"),
        TypError::DereferenceNonStructPointer
    );
    assert!(matches!(
        error_of("struct S { int a; }; int main() { struct S *p; return p->b; }"),
        TypError::FieldDoesntExist(_)
    ));
    assert_eq!(
        error_of("int main() { int x; x->a = 1; return 0; }"),
        TypError::AccessingFieldOnNonStructTyp(Typ::TInt)
    );
    assert!(matches!(
        error_of("struct S { int a; int a; }; int main() { return 0; }"),
        TypError::DuplicateFieldName(_)
    ));
    assert_eq!(error_of("int main() { return f(1); }"), TypError::FunctionDoesntExist);
    assert_eq!(error_of("int f() { return 0; }"), TypError::MissingMainFunction);
    assert_eq!(
        error_of("int main(int x) { return 0; }"),
        TypError::WrongMainFunctionSignature
    );
    assert_eq!(
        error_of("struct S { int a; }; struct S *main() { return 0; }"),
        TypError::WrongMainFunctionSignature
    );
    assert_eq!(
        error_of("int f(int x) { return 0; } int main() { return f(1, 2); }"),
        TypError::TooManyArguments
    );
    assert_eq!(
        error_of("int f(int x, int y) { return 0; } int main() { return f(1); }"),
        TypError::TooFewArguments
    );
    assert_eq!(
        error_of("int main() { return (1 + 2)(3); }"),
        TypError::CallingANonFunctionExpression
    );
    assert_eq!(
        error_of("int main() { 1 = 2; return 0; }"),
        TypError::AssigningToNonAssignableExpression
    );
    assert!(matches!(
        error_of("int f(int x, int x) { return 0; } int main() { return 0; }"),
        TypError::DuplicateArgName(_)
    ));
}

#[test]
fn types_that_do_not_go_together() {
    let typed = typ("struct S { int a; }; int main() { return 0; }").expect("typed");
    let s = Typ::TStruct(typed.structs[0].name);
    assert_eq!(
        error_of("struct S { int a; }; int main() { struct S *p; return -p; }"),
        wrong(Typ::TInt, s)
    );
    assert_eq!(
        error_of("struct S { int a; }; int main() { struct S *p; return 1 + p; }"),
        wrong(Typ::TInt, s)
    );
    assert_eq!(
        error_of("struct S { int a; }; int main() { struct S *p; return p * 2; }"),
        wrong(Typ::TInt, s)
    );
    assert_eq!(
        error_of("struct S { int a; }; int main() { struct S *p; return p == 1; }"),
        wrong(s, Typ::TInt)
    );
    assert_eq!(
        error_of("struct S { int a; }; int main() { struct S *p; return p; }"),
        wrong(Typ::TInt, s)
    );
    assert_eq!(
        error_of("struct S { int a; }; int f(int x) { return 0; } int main() { struct S *p; return f(p); }"),
        wrong(Typ::TInt, s)
    );
    assert!(typ("struct S { int a; }; int main() { struct S *p; p = 0; p = malloc(8); return !p; }").is_ok());
    assert!(typ("struct S { int a; }; int main() { struct S *p; return p == 0 && p || 1; }").is_ok());
}

#[test]
fn a_file_is_typed_in_a_given_context() {
    let parsed = minic_parse("int main() { return putchar(65); }").expect("parse");
    let typed = typ_file(FileContext::default(), &parsed).expect("typed");
    assert_eq!(typed.funs.len(), 1);
    assert_eq!(typed.names.len(), 5);
}

#[test]
fn more_than_can_be_counted_is_an_error() {
    let mut blocks = String::from("int main() { ");
    for _ in 0..253 {
        blocks.push_str("{} ");
    }
    let fits = format!("{} return 0; }}", blocks);
    assert!(typ(&fits).is_ok());
    let too_many = format!("{} {{}} return 0; }}", blocks);
    assert_eq!(error_of(&too_many), TypError::TooMany);
    let mut fields = String::from("struct S { ");
    for i in 0..256 {
        fields.push_str(&format!("int f{}; ", i));
    }
    let fits = format!("{} }}; int main() {{ return 0; }}", fields);
    assert_eq!(typ(&fits).expect("typed").structs[0].fields.len(), 256);
    let too_many = format!("{} int g; }}; int main() {{ return 0; }}", fields);
    assert_eq!(error_of(&too_many), TypError::TooMany);
}

use minic::common::{Ident, Stdout};

#[test]
fn stdout_collects_characters() {
    let mut out = Stdout::new();
    out.putchar('H');
    out.putchar('i');
    assert_eq!(out.len(), 2);
    assert_eq!(out.char_at(0), 'H');
    assert_eq!(out.char_at(1), 'i');
    assert_eq!(Ident::main().id, 0);
}

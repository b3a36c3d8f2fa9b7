use minic::common::Stdout;
use minic::minic_parse;
use minic::rtl::interpreter::context::Context;
use minic::rtl::interpreter::default::{Malloc, Putchar};
use minic::rtl::interpreter::error::RtlInterpreterError;
use minic::rtl::structure::register::PseudoRegister;
use minic::rtl::structure::Supply;
use minic::typer::interpreter::context::{InterpreterContext, MemoryStruct, MemoryVar};
use minic::typer::interpreter::error::TypInterpreterError;
use minic::typer::structure::BlockIdent;
use minic::common::Ident;

fn written(stdout: &Stdout) -> String {
    let mut out = String::new();
    let mut i = 0;
    while i < stdout.len() {
        out.push(stdout.char_at(i));
        i += 1;
    }
    out
}

fn both(source: &str, fuel: u64) -> (Result<String, TypInterpreterError>, Result<String, RtlInterpreterError>) {
    let typed = minic_parse(source).expect("parse").minic_typ().expect("typ");
    let first = typed.minic_interp(fuel).map(|stdout| written(&stdout));
    let mut supply = Supply::new();
    let rtl = typed.minic_rtl(&mut supply).expect("rtl");
    let second = rtl.minic_interp(fuel).map(|stdout| written(&stdout));
    (first, second)
}

#[test]
fn the_two_interpreters_agree() {
    let sources = [
        "int main() { putchar(65 + 3 * 4 - 10 / 2); return 0; }",
        "int main() { int i; i = 10; while (i) { putchar(64 + i); i = i - 1; } return 0; }",
        "int f(int a, int b) { return a - b; } int main() { putchar(f(70, 4)); putchar(f(4, -70)); return 0; }",
        "int main() { putchar(65 + (1 < 2) + (2 <= 2) + (3 > 2) + (2 >= 3) + (1 == 1) + (1 != 1)); return 0; }",
        "int main() { putchar(65 + (1 && 2) + (0 && 1) + (0 || 3) + (0 || 0) + !0 + !5); return 0; }",
        "struct L { int v; struct L *n; }; int main() { struct L *a; struct L *b; a = malloc(sizeof(struct L)); b = malloc(sizeof(struct L)); a->v = 65; a->n = b; b->v = 66; putchar(a->v); putchar(a->n->v); putchar(65 + !b->n); return 0; }",
        "int main() { int x; putchar(65 + x); putchar((x = 66)); putchar(x + 1); return 0; }",
        "int f(int n) { if (n == 0) return 0; putchar(64 + n); return f(n - 1); } int main() { f(5); return 0; }",
    ];
    let expected = ["H", "JIHGFEDCBA", "BJ", "E", "D", "ABB", "ABC", "EDCBA"];
    for (source, expected) in sources.iter().zip(expected) {
        let (typed, rtl) = both(source, 100_000);
        assert_eq!(typed, Ok(String::from(expected)), "{}", source);
        assert_eq!(rtl, Ok(String::from(expected)), "{}", source);
    }
}

#[test]
fn a_run_stops_when_its_fuel_is_spent() {
    let (typed, rtl) = both("int main() { while (1) { putchar(65); } return 0; }", 1000);
    assert_eq!(typed, Err(TypInterpreterError::OutOfFuel));
    assert_eq!(rtl, Err(RtlInterpreterError::OutOfFuel));
    let (typed, rtl) = both("int main() { return 0; }", 0);
    assert_eq!(typed, Err(TypInterpreterError::OutOfFuel));
    assert_eq!(rtl, Err(RtlInterpreterError::OutOfFuel));
}

#[test]
fn a_division_by_zero_is_an_error() {
    let (typed, rtl) = both("int main() { int x; putchar(1 / x); return 0; }", 1000);
    assert_eq!(typed, Err(TypInterpreterError::DivisionError));
    assert_eq!(rtl, Err(RtlInterpreterError::DivisionError));
}

#[test]
fn an_access_through_a_bad_address_is_an_error() {
    let source = "struct S { int a; }; int main() { struct S *p; p = 0; return p->a; }";
    let (typed, rtl) = both(source, 1000);
    assert_eq!(typed, Err(TypInterpreterError::UnallocatedMemory(0)));
    assert_eq!(rtl, Err(RtlInterpreterError::UnallocatedMemory(0)));
}

#[test]
fn arithmetic_wraps() {
    let source = "int main() { int x; x = 2147483647; x = x * x * 4 + x * 4 + 3; x = x + x + 2; putchar(65 + (x < 0)); return 0; }";
    let (typed, rtl) = both(source, 10_000);
    assert_eq!(typed, rtl.clone().map_err(|_| TypInterpreterError::OutOfFuel));
    assert!(typed.is_ok());
}

#[test]
fn the_registers_of_a_frame() {
    let mut context = Context::new();
    let r1 = PseudoRegister { index: 1 };
    let r2 = PseudoRegister { index: 2 };
    assert_eq!(context.get(&r1), 0);
    context.put(&r1, 5);
    assert_eq!(context.get(&r1), 5);
    assert_eq!(context.get(&r2), 0);
    context.enter();
    assert_eq!(context.get(&r1), 0);
    context.put(&r1, 7);
    context.leave();
    assert_eq!(context.get(&r1), 5);
}

#[test]
fn the_memory_of_a_run() {
    let mut context = Context::new();
    let r1 = PseudoRegister { index: 1 };
    assert_eq!(context.load(&r1, &0), Err(RtlInterpreterError::UnallocatedMemory(0)));
    assert_eq!(context.store(&r1, &0, &1), Err(RtlInterpreterError::UnallocatedMemory(0)));
    assert_eq!(Malloc::new().interp_fun(&mut context), Ok(1));
    assert_eq!(Malloc::new().interp_fun(&mut context), Ok(2));
    context.put(&r1, 2);
    assert_eq!(context.load(&r1, &8), Ok(0));
    assert_eq!(context.store(&r1, &8, &42), Ok(()));
    assert_eq!(context.store(&r1, &16, &43), Ok(()));
    assert_eq!(context.store(&r1, &8, &44), Ok(()));
    assert_eq!(context.load(&r1, &8), Ok(44));
    assert_eq!(context.load(&r1, &16), Ok(43));
    context.put(&r1, 1);
    assert_eq!(context.load(&r1, &8), Ok(0));
    context.put(&r1, 3);
    assert_eq!(context.load(&r1, &8), Err(RtlInterpreterError::UnallocatedMemory(3)));
    assert_eq!(Putchar::new().interp_fun(&mut context, 65 + 256), 0);
    assert_eq!(written(&context.stdout), "A");
}

#[test]
fn the_variables_of_a_call() {
    let x = BlockIdent::Local(1, Ident::new(9));
    let y = BlockIdent::Arg(0, Ident::new(9));
    let mut context = InterpreterContext::new();
    assert_eq!(context.get(x), 0);
    context.set(x, 4);
    context.set(y, 5);
    context.set(x, 6);
    assert_eq!(context.get(x), 6);
    assert_eq!(context.get(y), 5);
    let mut root = InterpreterContext::Root;
    root.set(x, 4);
    assert_eq!(root.get(x), 0);
    let mut vars = MemoryVar::new();
    assert_eq!(vars.get(x), 0);
    vars.set(x, 1);
    vars.set(x, 2);
    assert_eq!(vars.get(x), 2);
    assert_eq!(vars.get(y), 0);
    let mut fields = MemoryStruct::new();
    assert_eq!(fields.get(Ident::new(1)), 0);
    fields.set(Ident::new(1), 3);
    fields.set(Ident::new(2), 4);
    fields.set(Ident::new(1), 5);
    assert_eq!(fields.get(Ident::new(1)), 5);
    assert_eq!(fields.get(Ident::new(2)), 4);
}

fn rtl_main(instrs: Vec<(u32, minic::rtl::structure::Instr)>, entry: u32) -> minic::rtl::structure::File {
    let mut graph = minic::rtl::structure::graph::Graph::new(vec![]);
    for (label, instr) in instrs {
        graph.insert_with_label(minic::rtl::structure::label::Label { index: label }, instr);
    }
    minic::rtl::structure::File::new(vec![minic::rtl::structure::Fun::new(
        Ident::main(),
        PseudoRegister { index: 1 },
        vec![],
        vec![],
        minic::rtl::structure::label::Label { index: entry },
        minic::rtl::structure::label::Label { index: 99 },
        graph,
    )])
}

#[test]
fn a_call_of_a_missing_function_is_an_error() {
    let l = |index: u32| minic::rtl::structure::label::Label { index };
    let r1 = PseudoRegister { index: 1 };
    let calls = rtl_main(
        vec![(0, minic::rtl::structure::Instr::ECall(r1, Ident::new(7), vec![], l(99)))],
        0,
    );
    assert_eq!(
        calls.minic_interp(100).map(|stdout| written(&stdout)),
        Err(RtlInterpreterError::FunctionDoesNotExist(Ident::new(7)))
    );
    let empty = minic::rtl::structure::File::new(vec![]);
    assert_eq!(
        empty.minic_interp(100).map(|stdout| written(&stdout)),
        Err(RtlInterpreterError::FunctionDoesNotExist(Ident::main()))
    );
    let typed = minic_parse("int main() { return 0; }").expect("parse").minic_typ().expect("typ");
    let mut broken = typed;
    broken.funs[0].signature.name = Ident::new(9);
    assert_eq!(
        broken.minic_interp(100).map(|stdout| written(&stdout)),
        Err(TypInterpreterError::FunctionDoesNotExist(Ident::main()))
    );
}

#[test]
fn a_way_to_no_instruction_stops_the_run() {
    let l = |index: u32| minic::rtl::structure::label::Label { index };
    let lost = rtl_main(vec![(0, minic::rtl::structure::Instr::EGoto(l(5)))], 0);
    assert_eq!(
        lost.minic_interp(100).map(|stdout| written(&stdout)),
        Err(RtlInterpreterError::NoSuchInstruction(l(5)))
    );
    let fine = rtl_main(
        vec![
            (0, minic::rtl::structure::Instr::EConst(65, PseudoRegister { index: 2 }, l(1))),
            (
                1,
                minic::rtl::structure::Instr::ECall(
                    PseudoRegister { index: 1 },
                    Ident::putchar(),
                    vec![PseudoRegister { index: 2 }],
                    l(99),
                ),
            ),
        ],
        0,
    );
    assert_eq!(fine.minic_interp(100).map(|stdout| written(&stdout)), Ok(String::from("A")));
}

#[test]
fn what_a_run_cannot_meet_is_refused() {
    let l = |index: u32| minic::rtl::structure::label::Label { index };
    let file = rtl_main(vec![(0, minic::rtl::structure::Instr::EGoto(l(99)))], 0);
    let mut context = Context::new();
    assert_eq!(
        minic::rtl::interpreter::run(&mut context, &file, 0, 100),
        Ok(99)
    );
    assert_eq!(
        minic::rtl::interpreter::run(&mut context, &file, 3, 100),
        Err(RtlInterpreterError::Other)
    );
    let call = minic::rtl::structure::Instr::ECall(
        PseudoRegister { index: 1 },
        Ident::putchar(),
        vec![],
        l(99),
    );
    assert_eq!(
        minic::rtl::interpreter::interp_instr(&mut context, &call),
        Err(RtlInterpreterError::Other)
    );
    assert_eq!(
        minic::rtl::interpreter::interp_instr(
            &mut context,
            &minic::rtl::structure::Instr::EConst(4, PseudoRegister { index: 1 }, l(7))
        ),
        Ok(l(7))
    );
    assert_eq!(context.get(&PseudoRegister { index: 1 }), 4);
}

#[test]
fn an_assignment_is_evaluated_into_its_variable() {
    // The right side is lowered into the register of the variable itself,
    // its left operand first: a right operand that reads the variable sees
    // what the left operand left there.
    let (typed, rtl) = both(
        "int main() { int n; n = 3; n = 0 - n; putchar(51 + n); n = 5; n = 1 + n; putchar(48 + n); return 0; }",
        1000,
    );
    assert_eq!(typed, Ok(String::from("06")));
    assert_eq!(rtl, Ok(String::from("32")));
    let (typed, rtl) = both(
        "int main() { int n; n = 3; n = -n; putchar(51 + n); n = 5; n = n + 1; putchar(48 + n); return 0; }",
        1000,
    );
    assert_eq!(typed, Ok(String::from("06")));
    assert_eq!(rtl, Ok(String::from("06")));
}

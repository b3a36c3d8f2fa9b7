use minic::linearise::x86_64::{AsmNode, Program, Section, X86Operand};
use minic::ltl::structure::{Instr, Operand};
use minic::minic_parse;
use minic::rtl::structure::Supply;

const FUEL: u64 = 10_000_000;

struct Compiled {
    typed_stdout: String,
    rtl_stdout: String,
    program: Program,
    text: String,
    spilled: bool,
}

fn written(stdout: &minic::common::Stdout) -> String {
    let mut out = String::new();
    let mut i = 0;
    while i < stdout.len() {
        out.push(stdout.char_at(i));
        i += 1;
    }
    out
}

fn compile(source: &str) -> Compiled {
    let parsed = minic_parse(source).expect("parse");
    let typed = parsed.minic_typ().expect("typ");
    let typed_stdout = written(&typed.minic_interp(FUEL).expect("typed interp"));
    let mut supply = Supply::new();
    let rtl = typed.minic_rtl(&mut supply).expect("rtl");
    let rtl_stdout = written(&rtl.minic_interp(FUEL).expect("rtl interp"));
    let ertl = rtl.minic_ertl(&mut supply).expect("ertl");
    let ltl = ertl.minic_ltl(&mut supply).expect("ltl");
    let mut spilled = false;
    for fun in &ltl.funs {
        for label in fun.body.instrs.labels() {
            match fun.body.instrs.get(label) {
                Some(Instr::EMBinop(_, a, b, _)) => {
                    if matches!(a, Operand::Spilled(_)) || matches!(b, Operand::Spilled(_)) {
                        spilled = true;
                    }
                }
                Some(Instr::EConst(_, Operand::Spilled(_), _)) => spilled = true,
                _ => {}
            }
        }
    }
    let program = ltl.minic_linearise().expect("linearise");
    let text = program.render(&typed.names);
    Compiled { typed_stdout, rtl_stdout, program, text, spilled }
}

fn text_nodes(program: &Program) -> &Vec<AsmNode> {
    match &program.sections[0] {
        Section::Text(code) => &code.nodes,
        Section::Data(code) => &code.nodes,
    }
}

fn jump_target(node: &AsmNode) -> Option<u32> {
    match node {
        AsmNode::Jmp(l)
        | AsmNode::Je(l)
        | AsmNode::Jz(l)
        | AsmNode::Jne(l)
        | AsmNode::Jnz(l)
        | AsmNode::Jg(l)
        | AsmNode::Jge(l)
        | AsmNode::Jl(l)
        | AsmNode::Jle(l) => Some(l.index),
        _ => None,
    }
}

fn in_memory(operand: &X86Operand) -> bool {
    matches!(operand, X86Operand::Offset(_, _) | X86Operand::OffsetScale(_, _, _, _))
}

fn check_shape(compiled: &Compiled) {
    let nodes = text_nodes(&compiled.program);
    assert!(matches!(nodes[0], AsmNode::Globl(name) if name.id == 0));
    for node in nodes {
        if let AsmNode::Label(l) = node {
            assert!(
                nodes.iter().any(|other| jump_target(other) == Some(l.index)),
                "label L{} is no target",
                l.index
            );
        }
        if let Some(target) = jump_target(node) {
            assert!(
                nodes.iter().any(|other| matches!(other, AsmNode::Label(l) if l.index == target)),
                "target L{} has no label",
                target
            );
        }
        match node {
            AsmNode::Mov(_, a, b)
            | AsmNode::Add(_, a, b)
            | AsmNode::Sub(_, a, b)
            | AsmNode::Imul(_, a, b)
            | AsmNode::Cmp(_, a, b)
            | AsmNode::Test(_, a, b) => assert!(!(in_memory(a) && in_memory(b))),
            _ => {}
        }
    }
    assert!(compiled.text.starts_with("\t.text\n\t.globl main\n"));
    assert!(compiled.text.contains("\nmain:\n"));
    assert!(compiled.text.ends_with("\t.data\n"));
}

#[test]
fn putchar1() {
    let compiled =
        compile("int main(){ putchar(72); putchar(105); putchar(10); return 0; }");
    assert_eq!(compiled.typed_stdout, "Hi\n");
    assert_eq!(compiled.rtl_stdout, "Hi\n");
    check_shape(&compiled);
    assert!(compiled.text.contains("\tcall putchar\n"));
    assert!(compiled.text.contains("\tret\n"));
    println!("{}", compiled.text);
}

#[test]
fn fact_rec() {
    let source = "
        int fact(int n) { if (n <= 1) return 1; return n * fact(n - 1); }
        int print(int n) { if (n >= 10) print(n / 10); putchar('0' + n - (n / 10) * 10); return 0; }
        int main() { print(fact(5)); putchar(10); return 0; }";
    let compiled = compile(source);
    assert_eq!(compiled.typed_stdout, "120\n");
    assert_eq!(compiled.rtl_stdout, "120\n");
    check_shape(&compiled);
    assert!(compiled.text.contains("\tcall fact\n"));
    assert!(compiled.text.contains("\tcqto\n"));
}

#[test]
fn and1() {
    let compiled =
        compile("int main(){ if (1 && 0) putchar(65); else putchar(66); return 0; }");
    assert_eq!(compiled.typed_stdout, "B");
    assert_eq!(compiled.rtl_stdout, "B");
    check_shape(&compiled);
}

#[test]
fn or1() {
    let compiled = compile(
        "int main(){ if (0 || 2) putchar(65); else putchar(66); if (0 || 0) putchar(67); return 0; }",
    );
    assert_eq!(compiled.typed_stdout, "A");
    assert_eq!(compiled.rtl_stdout, "A");
    check_shape(&compiled);
}

#[test]
fn field4() {
    let source = "
        struct S { int a; };
        int main() {
            struct S *p;
            p = malloc(sizeof(struct S));
            p->a = 42;
            putchar('0' + p->a / 10);
            putchar('0' + p->a - (p->a / 10) * 10);
            return 0;
        }";
    let compiled = compile(source);
    assert!(compiled.typed_stdout.contains("42"));
    assert!(compiled.rtl_stdout.contains("42"));
    check_shape(&compiled);
    assert!(compiled.text.contains("\tcall malloc\n"));
}

#[test]
fn while2() {
    let source = "int main(){ int i; i = 0; while (i < 5) { putchar('0'+i); i = i+1; } return 0; }";
    let compiled = compile(source);
    assert_eq!(compiled.typed_stdout, "01234");
    assert_eq!(compiled.rtl_stdout, "01234");
    check_shape(&compiled);
}

#[test]
fn spilled1() {
    let source = "
        int main() {
            int a; int b; int c; int d; int e; int f; int g; int h;
            int i; int j; int k; int l; int m; int n; int o; int p;
            a = 1; b = 2; c = 3; d = 4; e = 5; f = 6; g = 7; h = 8;
            i = 9; j = 10; k = 11; l = 12; m = 13; n = 14; o = 15; p = 16;
            putchar(a + b + c + d + e + f + g + h + i + j + k + l + m + n + o + p - 71);
            putchar(a * b + p - o + n - m + l - k + j - i + h - g + f - e + d - c + 57);
            return 0;
        }";
    let compiled = compile(source);
    assert_eq!(compiled.typed_stdout, "AB");
    assert_eq!(compiled.rtl_stdout, "AB");
    assert!(compiled.spilled);
    check_shape(&compiled);
    assert!(compiled.text.contains("\tpushq %rbp\n"));
    assert!(compiled.text.contains("(%rbp)"));
}

#[test]
fn many_arguments_go_on_the_stack() {
    let source = "
        int sum(int a, int b, int c, int d, int e, int f, int g, int h) {
            return a + b + c + d + e + f + g + h;
        }
        int main() { putchar(sum(1, 2, 3, 4, 5, 6, 7, 8) + 29); return 0; }";
    let compiled = compile(source);
    assert_eq!(compiled.typed_stdout, "A");
    assert_eq!(compiled.rtl_stdout, "A");
    check_shape(&compiled);
    let pushes = compiled.text.matches("\tpushq ").count();
    assert!(pushes >= 2);
    assert!(compiled.text.contains("\taddq $16, %rsp\n"));
    assert!(compiled.text.contains("16(%rbp)"));
    assert!(compiled.text.contains("24(%rbp)"));
}

#[test]
fn the_pipeline_is_deterministic() {
    let source = "int f(int x) { return x + 1; } int main(){ putchar(f(64)); return 0; }";
    let first = compile(source);
    let second = compile(source);
    assert_eq!(first.text, second.text);
    assert_eq!(first.typed_stdout, "A");
}

use minic::common::Ident;
use minic::ertl::structure::register::PhysicalRegister;
use minic::ertl::structure::register::PhysicalRegister::{
    R10, R11, R12, R13, R14, R15, R8, R9, Rax, Rbp, Rbx, Rcx, Rdi, Rdx, Rsi, Rsp,
};
use minic::linearise::error::LinearisingError;
use minic::linearise::model::Cond;
use minic::linearise::printer::{mangle, push_decimal, push_natural, register_str, render_label, render_name, size_str};
use minic::linearise::x86_64::{Asm, AsmNode, Program, Section, Size, SizedPhysicalRegister, X86Operand};
use minic::linearise::context::Context;
use minic::linearise::{
    binop, branch, instr, jump, keep, lin, linearise, negate, next_of, operand, select,
    set_constant, setcc, widen,
};
use minic::ltl::structure::{File, Fun, Graph, Instr, Operand};
use minic::rtl::structure::label::Label;
use minic::rtl::structure::{MbBranch, Mbinop, MuBranch, Munop};
use minic::utils::{LabelMap, LabelSet};

fn l(index: u32) -> Label {
    Label { index }
}

const A: Operand = Operand::Register(Rbx);
const B: Operand = Operand::Register(Rcx);
const S: Operand = Operand::Spilled(0);
const T: Operand = Operand::Spilled(2);

const XA: X86Operand = X86Operand::Register(Rbx);
const XB: X86Operand = X86Operand::Register(Rcx);
const XS: X86Operand = X86Operand::Offset(-8, Rbp);
const XT: X86Operand = X86Operand::Offset(-24, Rbp);
const X10: X86Operand = X86Operand::Register(R10);
const X11: X86Operand = X86Operand::Register(R11);

fn byte(register: PhysicalRegister) -> SizedPhysicalRegister {
    SizedPhysicalRegister::new(register, Size::B)
}

fn file_of(instrs: Vec<Instr>) -> File {
    let mut map = LabelMap::new();
    for (index, instr) in instrs.into_iter().enumerate() {
        map.insert_at_label(l(index as u32), instr);
    }
    File::new(vec![Fun::new(Ident::new(0), l(0), Graph::new(map))])
}

fn text_of(file: &File) -> Vec<AsmNode> {
    let program = linearise(file).expect("linearise");
    assert_eq!(program.sections.len(), 2);
    match &program.sections[1] {
        Section::Data(data) => assert!(data.nodes.is_empty()),
        other => panic!("{:?}", other),
    }
    match &program.sections[0] {
        Section::Text(text) => text.nodes.clone(),
        other => panic!("{:?}", other),
    }
}

fn head() -> Vec<AsmNode> {
    vec![AsmNode::Globl(Ident::new(0)), AsmNode::DeclFun(Ident::new(0))]
}

fn with_head(nodes: Vec<AsmNode>) -> Vec<AsmNode> {
    let mut all = head();
    all.extend(nodes);
    all
}

#[test]
fn a_frame_slot_is_a_word_below_the_frame_pointer() {
    assert_eq!(operand(A), Ok(XA));
    assert_eq!(operand(Operand::Spilled(0)), Ok(X86Operand::Offset(-8, Rbp)));
    assert_eq!(operand(Operand::Spilled(1)), Ok(X86Operand::Offset(-16, Rbp)));
    assert_eq!(operand(Operand::Spilled(2)), Ok(X86Operand::Offset(-24, Rbp)));
    assert_eq!(operand(Operand::Spilled(usize::MAX)), Err(LinearisingError::FrameTooLarge));
}

#[test]
fn plain_instructions_are_one_line() {
    assert_eq!(
        select(&Instr::ELoad(Rbx, 8, Rcx, l(1))),
        Ok(vec![AsmNode::Mov(Size::Q, X86Operand::Offset(8, Rbx), XB)])
    );
    assert_eq!(
        select(&Instr::EStore(Rbx, Rcx, 16, l(1))),
        Ok(vec![AsmNode::Mov(Size::Q, XA, X86Operand::Offset(16, Rcx))])
    );
    assert_eq!(select(&Instr::EGoto(l(1))), Ok(vec![]));
    assert_eq!(select(&Instr::EReturn), Ok(vec![AsmNode::Ret]));
    assert_eq!(
        select(&Instr::EConst(5, S, l(1))),
        Ok(vec![AsmNode::Mov(Size::Q, X86Operand::Constant(5), XS)])
    );
    assert_eq!(
        select(&Instr::EMunop(Munop::Maddi(-16), Operand::Register(Rsp), l(1))),
        Ok(vec![AsmNode::Add(Size::Q, X86Operand::Constant(-16), X86Operand::Register(Rsp))])
    );
    assert_eq!(select(&Instr::EMunop(Munop::Mneg, S, l(1))), Ok(vec![AsmNode::Neg(Size::Q, XS)]));
    assert_eq!(select(&Instr::EPush(S, l(1))), Ok(vec![AsmNode::Pushq(XS)]));
    assert_eq!(select(&Instr::EPop(A, l(1))), Ok(vec![AsmNode::Popq(XA)]));
    assert_eq!(
        select(&Instr::ECall(Ident::new(7), l(1))),
        Ok(vec![AsmNode::Call(Ident::new(7))])
    );
    assert_eq!(
        select(&Instr::EConst(5, Operand::Spilled(usize::MAX), l(1))),
        Err(LinearisingError::FrameTooLarge)
    );
}

#[test]
fn two_operands_in_memory_go_through_a_scratch_register() {
    assert_eq!(binop(Mbinop::MMov, A, XA, B, XB), Ok(vec![AsmNode::Mov(Size::Q, XA, XB)]));
    assert_eq!(binop(Mbinop::MAdd, S, XS, B, XB), Ok(vec![AsmNode::Add(Size::Q, XS, XB)]));
    assert_eq!(binop(Mbinop::MSub, A, XA, T, XT), Ok(vec![AsmNode::Sub(Size::Q, XA, XT)]));
    assert_eq!(
        binop(Mbinop::MMov, S, XS, T, XT),
        Ok(vec![AsmNode::Mov(Size::Q, XS, X10), AsmNode::Mov(Size::Q, X10, XT)])
    );
    assert_eq!(
        binop(Mbinop::MAdd, S, XS, T, XT),
        Ok(vec![AsmNode::Mov(Size::Q, XS, X10), AsmNode::Add(Size::Q, X10, XT)])
    );
    assert_eq!(
        binop(Mbinop::MSub, S, XS, T, XT),
        Ok(vec![AsmNode::Mov(Size::Q, XS, X10), AsmNode::Sub(Size::Q, X10, XT)])
    );
    assert_eq!(
        select(&Instr::EMBinop(Mbinop::MSub, S, T, l(1))),
        Ok(vec![AsmNode::Mov(Size::Q, XS, X10), AsmNode::Sub(Size::Q, X10, XT)])
    );
}

#[test]
fn a_product_is_made_in_a_register() {
    assert_eq!(binop(Mbinop::MMul, S, XS, B, XB), Ok(vec![AsmNode::Imul(Size::Q, XS, XB)]));
    assert_eq!(
        binop(Mbinop::MMul, A, XA, T, XT),
        Ok(vec![
            AsmNode::Mov(Size::Q, XT, X11),
            AsmNode::Imul(Size::Q, XA, X11),
            AsmNode::Mov(Size::Q, X11, XT),
        ])
    );
    assert_eq!(
        binop(Mbinop::MMul, S, XS, T, XT),
        Ok(vec![
            AsmNode::Mov(Size::Q, XS, X10),
            AsmNode::Mov(Size::Q, XT, X11),
            AsmNode::Imul(Size::Q, X10, X11),
            AsmNode::Mov(Size::Q, X11, XT),
        ])
    );
}

#[test]
fn a_division_is_on_the_result_register() {
    let rax = Operand::Register(Rax);
    let xrax = X86Operand::Register(Rax);
    assert_eq!(
        binop(Mbinop::MDiv, A, XA, rax, xrax),
        Ok(vec![AsmNode::Cqto, AsmNode::IDivq(XA)])
    );
    assert_eq!(
        binop(Mbinop::MDiv, S, XS, rax, xrax),
        Ok(vec![AsmNode::Cqto, AsmNode::IDivq(XS)])
    );
    assert_eq!(binop(Mbinop::MDiv, A, XA, B, XB), Err(LinearisingError::DivisionOutsideRax));
    assert_eq!(binop(Mbinop::MDiv, A, XA, S, XS), Err(LinearisingError::DivisionOutsideRax));
}

#[test]
fn a_comparison_sets_a_byte_and_widens_it() {
    assert_eq!(
        binop(Mbinop::Msetl, A, XA, B, XB),
        Ok(vec![AsmNode::Cmp(Size::Q, XA, XB), AsmNode::Setl(byte(Rcx)), widen(Rcx)])
    );
    assert_eq!(widen(Rcx), AsmNode::And(Size::Q, X86Operand::Constant(255), XB));
    assert_eq!(
        binop(Mbinop::MSete, S, XS, B, XB),
        Ok(vec![AsmNode::Cmp(Size::Q, XS, XB), AsmNode::Sete(byte(Rcx)), widen(Rcx)])
    );
    assert_eq!(
        binop(Mbinop::Msetge, A, XA, T, XT),
        Ok(vec![
            AsmNode::Mov(Size::Q, XT, X11),
            AsmNode::Cmp(Size::Q, XA, X11),
            AsmNode::Setge(byte(R11)),
            widen(R11),
            AsmNode::Mov(Size::Q, X11, XT),
        ])
    );
    assert_eq!(
        binop(Mbinop::MSetne, S, XS, T, XT),
        Ok(vec![
            AsmNode::Mov(Size::Q, XS, X10),
            AsmNode::Mov(Size::Q, XT, X11),
            AsmNode::Cmp(Size::Q, X10, X11),
            AsmNode::Setne(byte(R11)),
            widen(R11),
            AsmNode::Mov(Size::Q, X11, XT),
        ])
    );
    assert_eq!(setcc(Mbinop::MSete, Rax), AsmNode::Sete(byte(Rax)));
    assert_eq!(setcc(Mbinop::MSetne, Rax), AsmNode::Setne(byte(Rax)));
    assert_eq!(setcc(Mbinop::Msetl, Rax), AsmNode::Setl(byte(Rax)));
    assert_eq!(setcc(Mbinop::Msetle, Rax), AsmNode::Setle(byte(Rax)));
    assert_eq!(setcc(Mbinop::Msetg, Rax), AsmNode::Setg(byte(Rax)));
    assert_eq!(setcc(Mbinop::Msetge, Rax), AsmNode::Setge(byte(Rax)));
}

#[test]
fn a_comparison_with_a_constant() {
    assert_eq!(
        set_constant(true, 0, A, XA),
        vec![
            AsmNode::Mov(Size::Q, X86Operand::Constant(0), X11),
            AsmNode::Cmp(Size::Q, XA, X11),
            AsmNode::Sete(byte(Rbx)),
            widen(Rbx),
        ]
    );
    assert_eq!(
        set_constant(false, 7, S, XS),
        vec![
            AsmNode::Mov(Size::Q, XS, X10),
            AsmNode::Mov(Size::Q, X86Operand::Constant(7), X11),
            AsmNode::Cmp(Size::Q, X10, X11),
            AsmNode::Setne(byte(R10)),
            widen(R10),
            AsmNode::Mov(Size::Q, X10, XS),
        ]
    );
    assert_eq!(
        select(&Instr::EMunop(Munop::Msetei(0), A, l(1))),
        Ok(set_constant(true, 0, A, XA))
    );
    assert_eq!(
        select(&Instr::EMunop(Munop::Msetnei(3), S, l(1))),
        Ok(set_constant(false, 3, S, XS))
    );
}

#[test]
fn the_test_of_a_branch() {
    assert_eq!(
        select(&Instr::EMuBranch(MuBranch::MJz, A, l(1), l(2))),
        Ok(vec![AsmNode::Test(Size::Q, XA, XA)])
    );
    assert_eq!(
        select(&Instr::EMuBranch(MuBranch::MJnz, S, l(1), l(2))),
        Ok(vec![AsmNode::Mov(Size::Q, XS, X10), AsmNode::Test(Size::Q, X10, X10)])
    );
    assert_eq!(
        select(&Instr::EMuBranch(MuBranch::MJlei(4), S, l(1), l(2))),
        Ok(vec![AsmNode::Cmp(Size::Q, X86Operand::Constant(4), XS)])
    );
    assert_eq!(
        select(&Instr::EMuBranch(MuBranch::MJgi(4), A, l(1), l(2))),
        Ok(vec![AsmNode::Cmp(Size::Q, X86Operand::Constant(4), XA)])
    );
    assert_eq!(
        select(&Instr::EMbBranch(MbBranch::MJl, A, T, l(1), l(2))),
        Ok(vec![AsmNode::Cmp(Size::Q, XT, XA)])
    );
    assert_eq!(
        select(&Instr::EMbBranch(MbBranch::MJle, S, T, l(1), l(2))),
        Ok(vec![AsmNode::Mov(Size::Q, XT, X10), AsmNode::Cmp(Size::Q, X10, XS)])
    );
    assert_eq!(branch(&Instr::EMuBranch(MuBranch::MJz, A, l(1), l(2))), Some((Cond::Z, l(1), l(2))));
    assert_eq!(branch(&Instr::EMuBranch(MuBranch::MJnz, A, l(1), l(2))), Some((Cond::Nz, l(1), l(2))));
    assert_eq!(branch(&Instr::EMuBranch(MuBranch::MJlei(1), A, l(1), l(2))), Some((Cond::Le, l(1), l(2))));
    assert_eq!(branch(&Instr::EMuBranch(MuBranch::MJgi(1), A, l(1), l(2))), Some((Cond::G, l(1), l(2))));
    assert_eq!(branch(&Instr::EMbBranch(MbBranch::MJl, A, B, l(1), l(2))), Some((Cond::L, l(1), l(2))));
    assert_eq!(branch(&Instr::EMbBranch(MbBranch::MJle, A, B, l(1), l(2))), Some((Cond::Le, l(1), l(2))));
    assert_eq!(branch(&Instr::EGoto(l(1))), None);
    assert_eq!(next_of(&Instr::EGoto(l(1))), Some(l(1)));
    assert_eq!(next_of(&Instr::EReturn), None);
    assert_eq!(next_of(&Instr::EMuBranch(MuBranch::MJz, A, l(1), l(2))), None);
}

#[test]
fn jumps_and_their_opposites() {
    assert_eq!(jump(Cond::Z, l(3)), AsmNode::Jz(l(3)));
    assert_eq!(jump(Cond::Nz, l(3)), AsmNode::Jnz(l(3)));
    assert_eq!(jump(Cond::Le, l(3)), AsmNode::Jle(l(3)));
    assert_eq!(jump(Cond::G, l(3)), AsmNode::Jg(l(3)));
    assert_eq!(jump(Cond::L, l(3)), AsmNode::Jl(l(3)));
    assert_eq!(jump(Cond::Ge, l(3)), AsmNode::Jge(l(3)));
    assert_eq!(negate(Cond::Z), Cond::Nz);
    assert_eq!(negate(Cond::Nz), Cond::Z);
    assert_eq!(negate(Cond::Le), Cond::G);
    assert_eq!(negate(Cond::G), Cond::Le);
    assert_eq!(negate(Cond::L), Cond::Ge);
    assert_eq!(negate(Cond::Ge), Cond::L);
}

#[test]
fn a_straight_line_has_no_label() {
    let file = file_of(vec![
        Instr::EConst(1, A, l(1)),
        Instr::EGoto(l(2)),
        Instr::EMBinop(Mbinop::MMov, A, Operand::Register(Rax), l(3)),
        Instr::EReturn,
    ]);
    assert_eq!(
        text_of(&file),
        with_head(vec![
            AsmNode::Mov(Size::Q, X86Operand::Constant(1), XA),
            AsmNode::Mov(Size::Q, XA, X86Operand::Register(Rax)),
            AsmNode::Ret,
        ])
    );
}

#[test]
fn a_branch_falls_through_to_its_second_way() {
    let file = file_of(vec![
        Instr::EMuBranch(MuBranch::MJz, A, l(1), l(2)),
        Instr::EConst(1, A, l(3)),
        Instr::EConst(2, A, l(3)),
        Instr::EReturn,
    ]);
    assert_eq!(
        text_of(&file),
        with_head(vec![
            AsmNode::Test(Size::Q, XA, XA),
            AsmNode::Jz(l(1)),
            AsmNode::Mov(Size::Q, X86Operand::Constant(2), XA),
            AsmNode::Label(l(3)),
            AsmNode::Ret,
            AsmNode::Label(l(1)),
            AsmNode::Mov(Size::Q, X86Operand::Constant(1), XA),
            AsmNode::Jmp(l(3)),
        ])
    );
}

#[test]
fn a_loop_jumps_back() {
    let file = file_of(vec![
        Instr::EConst(3, A, l(1)),
        Instr::EMuBranch(MuBranch::MJz, A, l(3), l(2)),
        Instr::EMunop(Munop::Maddi(-1), A, l(1)),
        Instr::EReturn,
    ]);
    assert_eq!(
        text_of(&file),
        with_head(vec![
            AsmNode::Mov(Size::Q, X86Operand::Constant(3), XA),
            AsmNode::Label(l(1)),
            AsmNode::Test(Size::Q, XA, XA),
            AsmNode::Jz(l(3)),
            AsmNode::Add(Size::Q, X86Operand::Constant(-1), XA),
            AsmNode::Jmp(l(1)),
            AsmNode::Label(l(3)),
            AsmNode::Ret,
        ])
    );
}

#[test]
fn a_branch_whose_second_way_is_done_is_turned_round() {
    let file = file_of(vec![
        Instr::EConst(3, A, l(1)),
        Instr::EMuBranch(MuBranch::MJlei(0), A, l(2), l(0)),
        Instr::EReturn,
    ]);
    assert_eq!(
        text_of(&file),
        with_head(vec![
            AsmNode::Label(l(0)),
            AsmNode::Mov(Size::Q, X86Operand::Constant(3), XA),
            AsmNode::Cmp(Size::Q, X86Operand::Constant(0), XA),
            AsmNode::Jg(l(0)),
            AsmNode::Ret,
            AsmNode::Jmp(l(0)),
        ])
    );
}

#[test]
fn a_branch_whose_ways_are_both_done_jumps_twice() {
    let file = file_of(vec![
        Instr::EGoto(l(1)),
        Instr::EMbBranch(MbBranch::MJl, A, B, l(0), l(1)),
    ]);
    assert_eq!(
        text_of(&file),
        with_head(vec![
            AsmNode::Label(l(0)),
            AsmNode::Label(l(1)),
            AsmNode::Cmp(Size::Q, XB, XA),
            AsmNode::Jl(l(0)),
            AsmNode::Jmp(l(1)),
        ])
    );
}

#[test]
fn a_way_to_no_instruction_stops_the_program() {
    let file = file_of(vec![Instr::EConst(3, A, l(5))]);
    match linearise(&file) {
        Err(error) => assert_eq!(error, LinearisingError::UnknownLabel(l(5))),
        Ok(program) => panic!("{:?}", program),
    }
    let file = file_of(vec![Instr::EMBinop(Mbinop::MDiv, A, B, l(0))]);
    match linearise(&file) {
        Err(error) => assert_eq!(error, LinearisingError::DivisionOutsideRax),
        Ok(program) => panic!("{:?}", program),
    }
    let file = file_of(vec![Instr::EPush(Operand::Spilled(usize::MAX), l(0))]);
    match linearise(&file) {
        Err(error) => assert_eq!(error, LinearisingError::FrameTooLarge),
        Ok(program) => panic!("{:?}", program),
    }
    assert_eq!(text_of(&File::new(vec![])), vec![AsmNode::Globl(Ident::new(0))]);
}

#[test]
fn functions_come_in_the_order_of_the_file() {
    let mut first = LabelMap::new();
    first.insert_at_label(l(0), Instr::EReturn);
    let mut second = LabelMap::new();
    second.insert_at_label(l(1), Instr::ECall(Ident::new(5), l(2)));
    second.insert_at_label(l(2), Instr::EReturn);
    let file = File::new(vec![
        Fun::new(Ident::new(5), l(0), Graph::new(first)),
        Fun::new(Ident::new(0), l(1), Graph::new(second)),
    ]);
    assert_eq!(
        text_of(&file),
        vec![
            AsmNode::Globl(Ident::new(0)),
            AsmNode::DeclFun(Ident::new(5)),
            AsmNode::Ret,
            AsmNode::DeclFun(Ident::new(0)),
            AsmNode::Call(Ident::new(5)),
            AsmNode::Ret,
        ]
    );
}

#[test]
fn only_the_labels_that_are_needed_are_kept() {
    let code = vec![
        AsmNode::Label(l(1)),
        AsmNode::Ret,
        AsmNode::Label(l(2)),
        AsmNode::Jmp(l(2)),
        AsmNode::Label(l(3)),
    ];
    let mut labels = LabelSet::new();
    assert_eq!(keep(&code, &labels), vec![AsmNode::Ret, AsmNode::Jmp(l(2))]);
    labels.insert(l(2));
    labels.insert(l(2));
    assert!(labels.contains(l(2)) && !labels.contains(l(1)));
    assert_eq!(
        keep(&code, &labels),
        vec![AsmNode::Ret, AsmNode::Label(l(2)), AsmNode::Jmp(l(2))]
    );
}

fn line(node: AsmNode) -> String {
    let names = vec![String::from("main"), String::from("putchar"), String::from("malloc")];
    let mut out = String::new();
    node.render(&names, &mut out);
    out
}

#[test]
fn numbers_are_written_in_decimal() {
    let mut out = String::new();
    for value in [0, 7, 10, -1, 42, -1234567890, i64::MAX, i64::MIN] {
        push_decimal(&mut out, value);
        out.push(' ');
    }
    assert_eq!(out, "0 7 10 -1 42 -1234567890 9223372036854775807 -9223372036854775808 ");
    let mut out = String::new();
    push_natural(&mut out, u64::MAX);
    assert_eq!(out, "18446744073709551615");
    let mut out = String::from("x");
    render_label(l(120), &mut out);
    assert_eq!(out, "xL120");
}

#[test]
fn registers_have_a_name_for_each_width() {
    assert_eq!(register_str(Rax, Size::Q), "rax");
    assert_eq!(register_str(Rax, Size::L), "eax");
    assert_eq!(register_str(Rax, Size::W), "ax");
    assert_eq!(register_str(Rax, Size::B), "al");
    assert_eq!(register_str(Rdi, Size::B), "dil");
    assert_eq!(register_str(Rsi, Size::B), "sil");
    assert_eq!(register_str(Rbp, Size::B), "bpl");
    assert_eq!(register_str(Rsp, Size::B), "spl");
    assert_eq!(register_str(R8, Size::L), "r8d");
    assert_eq!(register_str(R9, Size::W), "r9w");
    assert_eq!(register_str(R10, Size::B), "r10b");
    let all = [Rax, Rbx, Rcx, Rdx, Rdi, Rsi, Rbp, Rsp, R8, R9, R10, R11, R12, R13, R14, R15];
    let quads: Vec<_> = all.iter().map(|register| register_str(*register, Size::Q)).collect();
    assert_eq!(
        quads,
        vec![
            "rax", "rbx", "rcx", "rdx", "rdi", "rsi", "rbp", "rsp", "r8", "r9", "r10", "r11",
            "r12", "r13", "r14", "r15"
        ]
    );
    assert_eq!(
        [size_str(Size::B), size_str(Size::W), size_str(Size::L), size_str(Size::Q)],
        ["b", "w", "l", "q"]
    );
}

#[test]
fn lines_as_they_are_written() {
    assert_eq!(line(AsmNode::Mov(Size::Q, X86Operand::Constant(5), XA)), "\tmovq $5, %rbx");
    assert_eq!(line(AsmNode::Mov(Size::Q, XS, X10)), "\tmovq -8(%rbp), %r10");
    assert_eq!(line(AsmNode::Add(Size::Q, X86Operand::Constant(-16), X86Operand::Register(Rsp))), "\taddq $-16, %rsp");
    assert_eq!(line(AsmNode::Sub(Size::Q, XA, XT)), "\tsubq %rbx, -24(%rbp)");
    assert_eq!(line(AsmNode::Imul(Size::Q, XA, XB)), "\timulq %rbx, %rcx");
    assert_eq!(line(AsmNode::Neg(Size::Q, XA)), "\tnegq %rbx");
    assert_eq!(line(AsmNode::Cqto), "\tcqto");
    assert_eq!(line(AsmNode::IDivq(XA)), "\tidivq %rbx");
    assert_eq!(line(AsmNode::Cmp(Size::Q, XA, XB)), "\tcmpq %rbx, %rcx");
    assert_eq!(line(AsmNode::Test(Size::Q, XA, XA)), "\ttestq %rbx, %rbx");
    assert_eq!(line(AsmNode::And(Size::Q, X86Operand::Constant(255), XA)), "\tandq $255, %rbx");
    assert_eq!(line(AsmNode::Sete(byte(Rbx))), "\tsete %bl");
    assert_eq!(line(AsmNode::Setle(byte(R11))), "\tsetle %r11b");
    assert_eq!(line(AsmNode::Jmp(l(4))), "\tjmp L4");
    assert_eq!(line(AsmNode::Jz(l(4))), "\tjz L4");
    assert_eq!(line(AsmNode::Jnz(l(4))), "\tjnz L4");
    assert_eq!(line(AsmNode::Jle(l(4))), "\tjle L4");
    assert_eq!(line(AsmNode::Jg(l(4))), "\tjg L4");
    assert_eq!(line(AsmNode::Jl(l(4))), "\tjl L4");
    assert_eq!(line(AsmNode::Jge(l(4))), "\tjge L4");
    assert_eq!(line(AsmNode::Call(Ident::new(1))), "\tcall putchar");
    assert_eq!(line(AsmNode::Call(Ident::new(9))), "\tcall F9");
    assert_eq!(line(AsmNode::Ret), "\tret");
    assert_eq!(line(AsmNode::Pushq(X86Operand::Register(Rbp))), "\tpushq %rbp");
    assert_eq!(line(AsmNode::Popq(X86Operand::Register(Rbp))), "\tpopq %rbp");
    assert_eq!(line(AsmNode::Label(l(12))), "L12:");
    assert_eq!(line(AsmNode::DeclFun(Ident::new(0))), "main:");
    assert_eq!(line(AsmNode::Globl(Ident::new(0))), "\t.globl main");
    assert_eq!(
        line(AsmNode::Mov(Size::Q, X86Operand::OffsetScale(8, Rax, Rbx, 4), XB)),
        "\tmovq 8(%rax,%rbx,4), %rcx"
    );
    assert_eq!(mangle("main"), "main");
    let mut out = String::new();
    render_name(&vec![String::from("f")], Ident::new(0), &mut out);
    render_name(&vec![String::from("f")], Ident::new(3), &mut out);
    assert_eq!(out, "fF3");
}

#[test]
fn a_program_as_it_is_written() {
    let program = Program::new(vec![
        Section::Text(Asm::new(vec![
            AsmNode::Globl(Ident::new(0)),
            AsmNode::DeclFun(Ident::new(0)),
            AsmNode::Mov(Size::Q, X86Operand::Constant(0), X86Operand::Register(Rax)),
            AsmNode::Ret,
        ])),
        Section::Data(Asm::new(vec![])),
    ]);
    let names = vec![String::from("main")];
    assert_eq!(
        program.render(&names),
        "\t.text\n\t.globl main\nmain:\n\tmovq $0, %rax\n\tret\n\t.data\n"
    );
    assert_eq!(Program::new(vec![]).render(&names), "");
}

#[test]
fn a_traversal_can_be_taken_up_by_hand() {
    let mut map = LabelMap::new();
    map.insert_at_label(l(0), Instr::EConst(1, A, l(1)));
    map.insert_at_label(l(1), Instr::EMuBranch(MuBranch::MJnz, A, l(0), l(2)));
    map.insert_at_label(l(2), Instr::EReturn);
    let graph = Graph::new(map);
    let mut context = Context::new(Asm::new(vec![]), LabelSet::new(), LabelSet::new());
    assert_eq!(lin(&mut context, &graph, l(0)), Ok(()));
    assert_eq!(
        context.code.nodes,
        vec![
            AsmNode::Label(l(0)),
            AsmNode::Mov(Size::Q, X86Operand::Constant(1), XA),
            AsmNode::Label(l(1)),
            AsmNode::Test(Size::Q, XA, XA),
            AsmNode::Jnz(l(0)),
            AsmNode::Label(l(2)),
            AsmNode::Ret,
            AsmNode::Jmp(l(0)),
        ]
    );
    assert!(context.labels.contains(l(0)) && !context.labels.contains(l(1)));
    assert!(context.visited.contains(l(2)));
    assert_eq!(lin(&mut context, &graph, l(1)), Ok(()));
    assert_eq!(context.code.nodes.last(), Some(&AsmNode::Jmp(l(1))));
    assert!(context.labels.contains(l(1)));
    assert_eq!(lin(&mut context, &graph, l(7)), Err(LinearisingError::UnknownLabel(l(7))));
    assert_eq!(instr(&mut context, &graph, &Instr::EGoto(l(2))), Ok(()));
    assert_eq!(context.code.nodes.last(), Some(&AsmNode::Jmp(l(2))));
    context.emit_at_label(l(9), AsmNode::Ret);
    let n = context.code.nodes.len();
    assert_eq!(context.code.nodes[n - 2..], [AsmNode::Label(l(9)), AsmNode::Ret]);
}

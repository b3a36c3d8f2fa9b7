use minic::common::Ident;
use minic::ertl::error::ErtlError;
use minic::ertl::structure::register::PhysicalRegister::{
    R10, R11, R12, R13, R14, R15, R8, R9, Rax, Rbp, Rbx, Rcx, Rdi, Rdx, Rsi, Rsp,
};
use minic::ertl::structure::register::{
    allocatable_register, callee_save, caller_save, parameter, PhysicalRegister, Register, RESULT,
    TMP_1, TMP_2,
};
use minic::ertl::structure::{File, Fun, Graph, Instr};
use minic::ertl::{ertl_fun, ertl_instr, fetch, move_instr, pass, place};
use minic::minic_parse;
use minic::rtl::structure as rtl;
use minic::rtl::structure::label::Label;
use minic::rtl::structure::register::PseudoRegister;
use minic::rtl::structure::{Mbinop, MuBranch, Munop, Supply};

fn l(index: u32) -> Label {
    Label { index }
}

fn r(index: u32) -> PseudoRegister {
    PseudoRegister { index }
}

fn p(index: u32) -> Register {
    Register::Pseudo(r(index))
}

fn h(register: PhysicalRegister) -> Register {
    Register::Physical(register)
}

fn lower(source: &str) -> File {
    let typed = minic_parse(source).expect("parse").minic_typ().expect("typ");
    let mut supply = Supply::new();
    let rtl = typed.minic_rtl(&mut supply).expect("rtl");
    rtl.minic_ertl(&mut supply).expect("ertl")
}

fn next_of(instr: &Instr) -> Label {
    match instr {
        Instr::EConst(_, _, next)
        | Instr::ELoad(_, _, _, next)
        | Instr::EStore(_, _, _, next)
        | Instr::EMUnop(_, _, next)
        | Instr::EMBinop(_, _, _, next)
        | Instr::ECall(_, _, next)
        | Instr::EGoto(next)
        | Instr::EAllocFrame(next)
        | Instr::EDeleteFrame(next)
        | Instr::EGetParam(_, _, next)
        | Instr::EPushParam(_, next) => *next,
        other => panic!("{:?}", other),
    }
}

/// The instructions on the way from `from` to `until`, where each has one
/// successor.
fn chain(graph: &Graph, from: Label, until: Label) -> Vec<Instr> {
    let mut at = from;
    let mut found = Vec::new();
    while at != until {
        let instr = *graph.instrs.get(at).expect("path");
        found.push(instr);
        at = next_of(&instr);
    }
    found
}

#[test]
fn the_registers_of_the_convention() {
    let parameters: Vec<_> = (0..6).map(parameter).collect();
    assert_eq!(parameters, vec![Rdi, Rsi, Rdx, Rcx, R8, R9]);
    let caller: Vec<_> = (0..7).map(caller_save).collect();
    assert_eq!(caller, vec![Rax, Rdi, Rsi, Rdx, Rcx, R8, R9]);
    let callee: Vec<_> = (0..5).map(callee_save).collect();
    assert_eq!(callee, vec![Rbx, R12, R13, R14, R15]);
    let allocatable: Vec<_> = (0..12).map(allocatable_register).collect();
    assert_eq!(allocatable, vec![Rax, Rdi, Rsi, Rdx, Rcx, R8, R9, Rbx, R12, R13, R14, R15]);
    assert_eq!((RESULT, TMP_1, TMP_2), (Rax, R10, R11));
    assert!(!allocatable.contains(&TMP_1) && !allocatable.contains(&TMP_2));
    assert!(!allocatable.contains(&Rsp) && !allocatable.contains(&Rbp));
    assert_eq!(Register::from_pseudo(r(3)), p(3));
}

#[test]
fn plain_instructions_keep_their_shape() {
    let mut graph = Graph::new();
    let mut supply = Supply { labels: 10, registers: 10 };
    let cases = vec![
        (rtl::Instr::EConst(5, r(1), l(2)), Instr::EConst(5, p(1), l(2))),
        (rtl::Instr::ELoad(r(1), 8, r(2), l(2)), Instr::ELoad(p(1), 8, p(2), l(2))),
        (rtl::Instr::EStore(r(1), r(2), 16, l(2)), Instr::EStore(p(1), p(2), 16, l(2))),
        (rtl::Instr::EMUnop(Munop::Maddi(3), r(1), l(2)), Instr::EMUnop(Munop::Maddi(3), p(1), l(2))),
        (
            rtl::Instr::EMBinop(Mbinop::MSub, r(1), r(2), l(2)),
            Instr::EMBinop(Mbinop::MSub, p(1), p(2), l(2)),
        ),
        (
            rtl::Instr::EMuBranch(MuBranch::MJz, r(1), l(2), l(3)),
            Instr::EMuBranch(MuBranch::MJz, p(1), l(2), l(3)),
        ),
        (rtl::Instr::EGoto(l(2)), Instr::EGoto(l(2))),
    ];
    for (from, to) in cases {
        assert_eq!(ertl_instr(&mut graph, &mut supply, l(1), &from), Ok(()));
        assert_eq!(graph.instrs.get(l(1)), Some(&to));
    }
    assert_eq!(supply, Supply { labels: 10, registers: 10 });
    assert_eq!(graph.instrs.labels(), vec![l(1)]);
}

#[test]
fn a_division_goes_through_the_result_register() {
    let mut graph = Graph::new();
    let mut supply = Supply { labels: 10, registers: 10 };
    let div = rtl::Instr::EMBinop(Mbinop::MDiv, r(1), r(2), l(5));
    assert_eq!(ertl_instr(&mut graph, &mut supply, l(1), &div), Ok(()));
    assert_eq!(
        chain(&graph, l(1), l(5)),
        vec![
            Instr::EMBinop(Mbinop::MMov, p(2), h(Rax), l(11)),
            Instr::EMBinop(Mbinop::MDiv, p(1), h(Rax), l(10)),
            Instr::EMBinop(Mbinop::MMov, h(Rax), p(2), l(5)),
        ]
    );
    assert_eq!(supply.labels, 12);
}

#[test]
fn a_call_without_arguments() {
    let mut graph = Graph::new();
    let mut supply = Supply { labels: 10, registers: 10 };
    let call = rtl::Instr::ECall(r(1), Ident::new(7), vec![], l(5));
    assert_eq!(ertl_instr(&mut graph, &mut supply, l(1), &call), Ok(()));
    assert_eq!(
        chain(&graph, l(1), l(5)),
        vec![
            Instr::ECall(Ident::new(7), 0, l(11)),
            Instr::EMBinop(Mbinop::MMov, h(Rax), p(1), l(10)),
            Instr::EMUnop(Munop::Maddi(0), h(Rsp), l(5)),
        ]
    );
}

#[test]
fn the_first_six_arguments_go_in_registers() {
    let mut graph = Graph::new();
    let mut supply = Supply { labels: 20, registers: 20 };
    let args: Vec<_> = (1..=8).map(r).collect();
    let call = rtl::Instr::ECall(r(9), Ident::new(7), args, l(5));
    assert_eq!(ertl_instr(&mut graph, &mut supply, l(1), &call), Ok(()));
    let found = chain(&graph, l(1), l(5));
    let shapes: Vec<_> = found
        .iter()
        .map(|instr| match instr {
            Instr::EPushParam(register, _) => (Some(*register), None, 0),
            Instr::EMBinop(Mbinop::MMov, from, to, _) => (Some(*from), Some(*to), 0),
            Instr::ECall(name, count, _) => {
                assert_eq!(*name, Ident::new(7));
                (None, None, *count as i64)
            }
            Instr::EMUnop(Munop::Maddi(by), register, _) => (None, Some(*register), *by),
            other => panic!("{:?}", other),
        })
        .collect();
    assert_eq!(
        shapes,
        vec![
            (Some(p(8)), None, 0),
            (Some(p(7)), None, 0),
            (Some(p(6)), Some(h(R9)), 0),
            (Some(p(5)), Some(h(R8)), 0),
            (Some(p(4)), Some(h(Rcx)), 0),
            (Some(p(3)), Some(h(Rdx)), 0),
            (Some(p(2)), Some(h(Rsi)), 0),
            (Some(p(1)), Some(h(Rdi)), 0),
            (None, None, 6),
            (Some(h(Rax)), Some(p(9)), 0),
            (None, Some(h(Rsp)), 16),
        ]
    );
}

#[test]
fn one_argument_is_passed_at_the_label_of_the_call() {
    let mut graph = Graph::new();
    let mut supply = Supply { labels: 20, registers: 20 };
    let call = rtl::Instr::ECall(r(9), Ident::new(7), vec![r(4)], l(5));
    assert_eq!(ertl_instr(&mut graph, &mut supply, l(1), &call), Ok(()));
    let found = chain(&graph, l(1), l(5));
    assert_eq!(found.len(), 4);
    assert_eq!(
        found[0],
        Instr::EMBinop(Mbinop::MMov, p(4), h(Rdi), next_of(&found[0]))
    );
    assert!(matches!(found[1], Instr::ECall(_, 1, _)));
    assert_eq!(pass(0, r(4), l(3)), Instr::EMBinop(Mbinop::MMov, p(4), h(Rdi), l(3)));
    assert_eq!(pass(5, r(4), l(3)), Instr::EMBinop(Mbinop::MMov, p(4), h(R9), l(3)));
    assert_eq!(pass(6, r(4), l(3)), Instr::EPushParam(p(4), l(3)));
    assert_eq!(fetch(0, r(4), l(3)), Instr::EMBinop(Mbinop::MMov, h(Rdi), p(4), l(3)));
    assert_eq!(fetch(6, r(4), l(3)), Instr::EGetParam(6, p(4), l(3)));
    assert_eq!(fetch(9, r(4), l(3)), Instr::EGetParam(9, p(4), l(3)));
    assert_eq!(move_instr(p(1), p(2), l(3)), Instr::EMBinop(Mbinop::MMov, p(1), p(2), l(3)));
}

#[test]
fn too_many_arguments_are_an_error() {
    let mut graph = Graph::new();
    let mut supply = Supply { labels: 20, registers: 20 };
    let args: Vec<_> = (1..=256).map(r).collect();
    let call = rtl::Instr::ECall(r(900), Ident::new(7), args, l(5));
    assert_eq!(
        ertl_instr(&mut graph, &mut supply, l(1), &call),
        Err(ErtlError::TooManyArguments(Ident::new(7)))
    );
    let args: Vec<_> = (1..=255).map(r).collect();
    let call = rtl::Instr::ECall(r(900), Ident::new(7), args, l(5));
    assert_eq!(ertl_instr(&mut graph, &mut supply, l(1), &call), Ok(()));
    let found = chain(&graph, l(1), l(5));
    assert_eq!(found.len(), 255 + 3);
    assert_eq!(found[257], Instr::EMUnop(Munop::Maddi(8 * 249), h(Rsp), l(5)));
}

#[test]
fn labels_run_out() {
    let mut graph = Graph::new();
    let mut supply = Supply { labels: u32::MAX, registers: 20 };
    let div = rtl::Instr::EMBinop(Mbinop::MDiv, r(1), r(2), l(5));
    assert_eq!(ertl_instr(&mut graph, &mut supply, l(1), &div), Err(ErtlError::Exhausted));
    assert_eq!(place(&mut graph, &mut supply, Instr::EReturn), Err(ErtlError::Exhausted));
    let mut supply = Supply { labels: 0, registers: 1 };
    assert_eq!(place(&mut graph, &mut supply, Instr::EReturn), Ok(l(0)));
    assert_eq!(graph.instrs.get(l(0)), Some(&Instr::EReturn));
}

fn check_frame(fun: &Fun, rtl_fun: &rtl::Fun) {
    let callee = [Rbx, R12, R13, R14, R15];
    let mut at = fun.entry;
    let first = *fun.body.instrs.get(at).expect("entry");
    assert!(matches!(first, Instr::EAllocFrame(_)));
    at = next_of(&first);
    let mut saved = Vec::new();
    for _ in 0..5 {
        match *fun.body.instrs.get(at).expect("save") {
            Instr::EMBinop(Mbinop::MMov, Register::Physical(from), Register::Pseudo(to), next) => {
                saved.push((from, to));
                at = next;
            }
            other => panic!("{:?}", other),
        }
    }
    let mut kept: Vec<_> = saved.iter().map(|pair| pair.0).collect();
    kept.sort();
    let mut expected = callee.to_vec();
    expected.sort();
    assert_eq!(kept, expected);
    let parameters = [Rdi, Rsi, Rdx, Rcx, R8, R9];
    for (index, argument) in rtl_fun.arguments.iter().enumerate() {
        let instr = *fun.body.instrs.get(at).expect("fetch");
        if index < 6 {
            assert_eq!(
                instr,
                Instr::EMBinop(Mbinop::MMov, h(parameters[index]), Register::Pseudo(*argument), next_of(&instr))
            );
        } else {
            assert_eq!(
                instr,
                Instr::EGetParam(index as u8, Register::Pseudo(*argument), next_of(&instr))
            );
        }
        at = next_of(&instr);
    }
    assert_eq!(at, rtl_fun.entry);
    let mut at = rtl_fun.exit;
    let instr = *fun.body.instrs.get(at).expect("exit");
    assert_eq!(
        instr,
        Instr::EMBinop(Mbinop::MMov, Register::Pseudo(rtl_fun.result), h(Rax), next_of(&instr))
    );
    at = next_of(&instr);
    let mut restored = Vec::new();
    for _ in 0..5 {
        match *fun.body.instrs.get(at).expect("restore") {
            Instr::EMBinop(Mbinop::MMov, Register::Pseudo(from), Register::Physical(to), next) => {
                restored.push((to, from));
                at = next;
            }
            other => panic!("{:?}", other),
        }
    }
    saved.sort();
    restored.sort();
    assert_eq!(saved, restored);
    let instr = *fun.body.instrs.get(at).expect("delete");
    assert!(matches!(instr, Instr::EDeleteFrame(_)));
    assert_eq!(fun.body.instrs.get(next_of(&instr)), Some(&Instr::EReturn));
}

#[test]
fn a_function_gets_its_frame_and_its_arguments() {
    let source = "int f(int a, int b, int c, int d, int e, int g, int h, int i) { return a + i; } \
                  int main() { return f(1, 2, 3, 4, 5, 6, 7, 8); }";
    let typed = minic_parse(source).expect("parse").minic_typ().expect("typ");
    let mut supply = Supply::new();
    let rtl = typed.minic_rtl(&mut supply).expect("rtl");
    let ertl = rtl.minic_ertl(&mut supply).expect("ertl");
    assert_eq!(ertl.funs.len(), 2);
    assert_eq!(ertl.funs[0].argument_count, 8);
    assert_eq!(ertl.funs[1].argument_count, 0);
    assert_eq!(ertl.funs[0].name, rtl.funs[0].name);
    assert_eq!(ertl.funs[0].locals.len(), rtl.funs[0].locals.len());
    check_frame(&ertl.funs[0], &rtl.funs[0]);
    check_frame(&ertl.funs[1], &rtl.funs[1]);
    let mut again = Supply { labels: 1000, registers: 1000 };
    let alone = ertl_fun(&rtl.funs[0], &mut again).expect("ertl");
    check_frame(&alone, &rtl.funs[0]);
    assert_eq!(again.registers, 1005);
}

#[test]
fn every_label_of_an_explicit_function_is_defined() {
    let file = lower(
        "int f(int a, int b) { while (a) { if (a / b) a = a - 1; else return b; } return a; } \
         int main() { putchar(65 + f(3, 4)); return 0; }",
    );
    for fun in &file.funs {
        assert!(fun.body.instrs.contains(fun.entry));
        let mut returns = 0;
        for label in fun.body.instrs.labels() {
            let instr = *fun.body.instrs.get(label).expect("listed");
            let nexts = match instr {
                Instr::EReturn => {
                    returns += 1;
                    vec![]
                }
                Instr::EMuBranch(_, _, first, second) | Instr::EMbBranch(_, _, _, first, second) => {
                    vec![first, second]
                }
                other => vec![next_of(&other)],
            };
            for next in nexts {
                assert!(fun.body.instrs.contains(next), "{:?} from {:?}", next, label);
            }
            if let Instr::EMBinop(Mbinop::MDiv, _, dest, _) = instr {
                assert_eq!(dest, h(Rax));
            }
        }
        assert_eq!(returns, 1);
    }
}

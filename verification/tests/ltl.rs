use minic::coloring::structure::Coloring;
use minic::common::Ident;
use minic::ertl::structure as ertl;
use minic::ertl::structure::register::PhysicalRegister::{R10, R11, Rax, Rbp, Rbx, Rcx, Rsp};
use minic::ertl::structure::register::Register;
use minic::liveness::error::LivenessError;
use minic::ltl::context::Context;
use minic::ltl::error::LtlError;
use minic::ltl::structure::{Instr, Operand};
use minic::ltl::{ltl_fun, ltl_fun_with, ltl_instr, move_instr};
use minic::minic_parse;
use minic::rtl::structure::label::Label;
use minic::rtl::structure::register::PseudoRegister;
use minic::rtl::structure::{MbBranch, Mbinop, MuBranch, Munop, Supply};
use minic::utils::{LabelMap, OrdinalMap};

fn l(index: u32) -> Label {
    Label { index }
}

fn p(index: u32) -> Register {
    Register::Pseudo(PseudoRegister { index })
}

const A: Operand = Operand::Register(Rbx);
const B: Operand = Operand::Register(Rcx);
const S: Operand = Operand::Spilled(0);
const T: Operand = Operand::Spilled(2);

/// Registers 1 and 2 live in machine registers, 3 and 4 in the frame, 5 in
/// the same machine register as 1.
fn coloring(count_on_stack: usize) -> Coloring {
    let mut colors = OrdinalMap::new();
    colors.insert(1, A);
    colors.insert(2, B);
    colors.insert(3, S);
    colors.insert(4, T);
    colors.insert(5, A);
    Coloring::new(colors, count_on_stack)
}

/// What stands on the way from label 1 to label 9 once `instr` has been
/// lowered at label 1, with the labels from 100 on free.
fn lowered_with(count_on_stack: usize, instr: ertl::Instr) -> Result<Vec<Instr>, LtlError> {
    let mut context = Context::new(coloring(count_on_stack), LabelMap::new());
    let mut supply = Supply { labels: 100, registers: 100 };
    ltl_instr(&mut context, &mut supply, l(1), &instr)?;
    let mut found = Vec::new();
    let mut at = l(1);
    while at != l(9) {
        let instr = *context.graph.get(at).expect("path");
        found.push(instr);
        at = match instr {
            Instr::ELoad(_, _, _, next)
            | Instr::EStore(_, _, _, next)
            | Instr::EGoto(next)
            | Instr::EConst(_, _, next)
            | Instr::EMunop(_, _, next)
            | Instr::EMBinop(_, _, _, next)
            | Instr::EPush(_, next)
            | Instr::ECall(_, next)
            | Instr::EPop(_, next) => next,
            _ => break,
        };
    }
    assert_eq!(context.graph.labels().len(), found.len());
    Ok(found)
}

fn lowered(instr: ertl::Instr) -> Vec<Instr> {
    lowered_with(3, instr).expect("lowered")
}

fn shape(instrs: Vec<Instr>) -> Vec<String> {
    instrs
        .iter()
        .map(|instr| {
            let text = format!("{:?}", instr);
            match text.rfind(", Label") {
                Some(cut) => format!("{})", &text[..cut]),
                None => text,
            }
        })
        .collect()
}

fn shapes(instrs: &[Instr]) -> Vec<String> {
    shape(instrs.to_vec())
}

#[test]
fn instructions_on_colors() {
    assert_eq!(lowered(ertl::Instr::EConst(5, p(1), l(9))), vec![Instr::EConst(5, A, l(9))]);
    assert_eq!(lowered(ertl::Instr::EConst(5, p(3), l(9))), vec![Instr::EConst(5, S, l(9))]);
    assert_eq!(
        lowered(ertl::Instr::EConst(5, Register::Physical(Rax), l(9))),
        vec![Instr::EConst(5, Operand::Register(Rax), l(9))]
    );
    assert_eq!(
        lowered(ertl::Instr::EMUnop(Munop::Maddi(2), p(4), l(9))),
        vec![Instr::EMunop(Munop::Maddi(2), T, l(9))]
    );
    assert_eq!(
        lowered(ertl::Instr::EMBinop(Mbinop::MAdd, p(3), p(2), l(9))),
        vec![Instr::EMBinop(Mbinop::MAdd, S, B, l(9))]
    );
    assert_eq!(
        lowered(ertl::Instr::EMBinop(Mbinop::MDiv, p(3), Register::Physical(Rax), l(9))),
        vec![Instr::EMBinop(Mbinop::MDiv, S, Operand::Register(Rax), l(9))]
    );
    assert_eq!(
        lowered(ertl::Instr::EMuBranch(MuBranch::MJz, p(3), l(9), l(8))),
        vec![Instr::EMuBranch(MuBranch::MJz, S, l(9), l(8))]
    );
    assert_eq!(
        lowered(ertl::Instr::EMbBranch(MbBranch::MJle, p(1), p(4), l(9), l(8))),
        vec![Instr::EMbBranch(MbBranch::MJle, A, T, l(9), l(8))]
    );
    assert_eq!(lowered(ertl::Instr::EPushParam(p(3), l(9))), vec![Instr::EPush(S, l(9))]);
    assert_eq!(
        lowered(ertl::Instr::ECall(Ident::new(7), 4, l(9))),
        vec![Instr::ECall(Ident::new(7), l(9))]
    );
    assert_eq!(lowered(ertl::Instr::EGoto(l(9))), vec![Instr::EGoto(l(9))]);
    assert_eq!(lowered(ertl::Instr::EReturn), vec![Instr::EReturn]);
    assert_eq!(move_instr(A, S, l(9)), Instr::EMBinop(Mbinop::MMov, A, S, l(9)));
}

#[test]
fn a_move_between_equal_colors_is_a_jump() {
    assert_eq!(
        lowered(ertl::Instr::EMBinop(Mbinop::MMov, p(1), p(5), l(9))),
        vec![Instr::EGoto(l(9))]
    );
    assert_eq!(
        lowered(ertl::Instr::EMBinop(Mbinop::MMov, p(3), p(3), l(9))),
        vec![Instr::EGoto(l(9))]
    );
    assert_eq!(
        lowered(ertl::Instr::EMBinop(Mbinop::MMov, p(1), Register::Physical(Rbx), l(9))),
        vec![Instr::EGoto(l(9))]
    );
    assert_eq!(
        lowered(ertl::Instr::EMBinop(Mbinop::MMov, p(1), p(2), l(9))),
        vec![Instr::EMBinop(Mbinop::MMov, A, B, l(9))]
    );
    assert_eq!(
        lowered(ertl::Instr::EMBinop(Mbinop::MMov, p(3), p(4), l(9))),
        vec![Instr::EMBinop(Mbinop::MMov, S, T, l(9))]
    );
    assert_eq!(
        lowered(ertl::Instr::EMBinop(Mbinop::MAdd, p(1), p(5), l(9))),
        vec![Instr::EMBinop(Mbinop::MAdd, A, A, l(9))]
    );
}

#[test]
fn a_load_goes_through_the_scratch_registers() {
    assert_eq!(
        lowered(ertl::Instr::ELoad(p(1), 8, p(2), l(9))),
        vec![Instr::ELoad(Rbx, 8, Rcx, l(9))]
    );
    assert_eq!(
        shape(lowered(ertl::Instr::ELoad(p(1), 8, p(3), l(9)))),
        shapes(&[Instr::ELoad(Rbx, 8, R11, l(0)), move_instr(Operand::Register(R11), S, l(0))])
    );
    assert_eq!(
        shape(lowered(ertl::Instr::ELoad(p(3), 8, p(2), l(9)))),
        shapes(&[move_instr(S, Operand::Register(R10), l(0)), Instr::ELoad(R10, 8, Rcx, l(0))])
    );
    assert_eq!(
        shape(lowered(ertl::Instr::ELoad(p(3), 16, p(4), l(9)))),
        shapes(&[
            move_instr(S, Operand::Register(R10), l(0)),
            Instr::ELoad(R10, 16, R11, l(0)),
            move_instr(Operand::Register(R11), T, l(0)),
        ])
    );
}

#[test]
fn a_store_goes_through_the_scratch_registers() {
    assert_eq!(
        lowered(ertl::Instr::EStore(p(1), p(2), 8, l(9))),
        vec![Instr::EStore(Rbx, Rcx, 8, l(9))]
    );
    assert_eq!(
        shape(lowered(ertl::Instr::EStore(p(3), p(2), 8, l(9)))),
        shapes(&[move_instr(S, Operand::Register(R11), l(0)), Instr::EStore(R11, Rcx, 8, l(0))])
    );
    assert_eq!(
        shape(lowered(ertl::Instr::EStore(p(1), p(4), 8, l(9)))),
        shapes(&[move_instr(T, Operand::Register(R10), l(0)), Instr::EStore(Rbx, R10, 8, l(0))])
    );
    assert_eq!(
        shape(lowered(ertl::Instr::EStore(p(3), p(4), 24, l(9)))),
        shapes(&[
            move_instr(T, Operand::Register(R10), l(0)),
            move_instr(S, Operand::Register(R11), l(0)),
            Instr::EStore(R11, R10, 24, l(0)),
        ])
    );
}

#[test]
fn an_argument_on_the_stack_is_read_above_the_frame() {
    assert_eq!(
        lowered(ertl::Instr::EGetParam(6, p(1), l(9))),
        vec![Instr::ELoad(Rbp, 16, Rbx, l(9))]
    );
    assert_eq!(
        lowered(ertl::Instr::EGetParam(7, p(2), l(9))),
        vec![Instr::ELoad(Rbp, 24, Rcx, l(9))]
    );
    assert_eq!(
        lowered(ertl::Instr::EGetParam(255, p(2), l(9))),
        vec![Instr::ELoad(Rbp, 16 + 8 * 249, Rcx, l(9))]
    );
    assert_eq!(
        shape(lowered(ertl::Instr::EGetParam(8, p(3), l(9)))),
        shapes(&[Instr::ELoad(Rbp, 32, R10, l(0)), Instr::EStore(R10, Rbp, -8, l(0))])
    );
    assert_eq!(
        shape(lowered(ertl::Instr::EGetParam(6, p(4), l(9)))),
        shapes(&[Instr::ELoad(Rbp, 16, R10, l(0)), Instr::EStore(R10, Rbp, -24, l(0))])
    );
}

#[test]
fn the_frame_is_made_and_deleted() {
    let rsp = Operand::Register(Rsp);
    let rbp = Operand::Register(Rbp);
    assert_eq!(
        shape(lowered(ertl::Instr::EAllocFrame(l(9)))),
        shapes(&[
            Instr::EPush(rbp, l(0)),
            move_instr(rsp, rbp, l(0)),
            Instr::EMunop(Munop::Maddi(-24), rsp, l(0)),
        ])
    );
    assert_eq!(
        shape(lowered(ertl::Instr::EDeleteFrame(l(9)))),
        shapes(&[move_instr(rbp, rsp, l(0)), Instr::EPop(rbp, l(0))])
    );
    assert_eq!(
        lowered_with(0, ertl::Instr::EAllocFrame(l(9))),
        Ok(vec![Instr::EGoto(l(9))])
    );
    assert_eq!(
        lowered_with(0, ertl::Instr::EDeleteFrame(l(9))),
        Ok(vec![Instr::EGoto(l(9))])
    );
    assert_eq!(
        shape(lowered_with(1, ertl::Instr::EAllocFrame(l(9))).expect("lowered"))[2],
        shapes(&[Instr::EMunop(Munop::Maddi(-8), rsp, l(0))])[0]
    );
    assert_eq!(
        lowered_with(usize::MAX, ertl::Instr::EAllocFrame(l(9))),
        Err(LtlError::FrameTooLarge)
    );
}

#[test]
fn a_register_without_a_color_is_an_error() {
    let missing = PseudoRegister { index: 6 };
    assert_eq!(
        lowered_with(3, ertl::Instr::EConst(5, p(6), l(9))),
        Err(LtlError::MissingRegisterColor(missing))
    );
    assert_eq!(
        lowered_with(3, ertl::Instr::EMBinop(Mbinop::MAdd, p(1), p(6), l(9))),
        Err(LtlError::MissingRegisterColor(missing))
    );
    assert_eq!(
        lowered_with(3, ertl::Instr::EGetParam(6, p(6), l(9))),
        Err(LtlError::MissingRegisterColor(missing))
    );
    let context = Context::new(coloring(3), LabelMap::new());
    assert_eq!(context.color(&p(3)), Ok(S));
    assert_eq!(context.color(&Register::Physical(R10)), Ok(Operand::Register(R10)));
    assert_eq!(context.color(&p(6)), Err(LtlError::MissingRegisterColor(missing)));
}

#[test]
fn labels_run_out_while_lowering() {
    let mut context = Context::new(coloring(3), LabelMap::new());
    let mut supply = Supply { labels: u32::MAX, registers: 1 };
    assert_eq!(
        ltl_instr(&mut context, &mut supply, l(1), &ertl::Instr::ELoad(p(3), 8, p(2), l(9))),
        Err(LtlError::Exhausted)
    );
    assert_eq!(
        ltl_instr(&mut context, &mut supply, l(1), &ertl::Instr::EAllocFrame(l(9))),
        Err(LtlError::Exhausted)
    );
    assert_eq!(context.insert(&mut supply, Instr::EReturn), Err(LtlError::Exhausted));
    assert_eq!(
        ltl_instr(&mut context, &mut supply, l(1), &ertl::Instr::EConst(1, p(3), l(9))),
        Ok(())
    );
}

#[test]
fn a_function_is_lowered_with_a_given_coloring() {
    let mut body = ertl::Graph::new();
    body.insert_at_label(l(0), ertl::Instr::EAllocFrame(l(1)));
    body.insert_at_label(l(1), ertl::Instr::EConst(7, p(3), l(2)));
    body.insert_at_label(l(2), ertl::Instr::EMBinop(Mbinop::MMov, p(3), Register::Physical(Rax), l(3)));
    body.insert_at_label(l(3), ertl::Instr::EDeleteFrame(l(4)));
    body.insert_at_label(l(4), ertl::Instr::EReturn);
    let fun = ertl::Fun::new(Ident::new(0), 0, vec![p(3)], l(0), body);
    let mut supply = Supply { labels: 5, registers: 10 };
    let order = vec![l(0), l(1), l(2), l(3), l(4)];
    let lowered = ltl_fun_with(&fun, coloring(1), &mut supply, &order).expect("lowered");
    assert_eq!(lowered.name, Ident::new(0));
    assert_eq!(lowered.entry, l(0));
    assert_eq!(lowered.body.instrs.labels().len(), 8);
    assert_eq!(supply.labels, 8);
    assert_eq!(lowered.body.instrs.get(l(1)), Some(&Instr::EConst(7, S, l(2))));
    assert_eq!(
        lowered.body.instrs.get(l(2)),
        Some(&Instr::EMBinop(Mbinop::MMov, S, Operand::Register(Rax), l(3)))
    );
    assert_eq!(lowered.body.instrs.get(l(4)), Some(&Instr::EReturn));
}

#[test]
fn a_function_whose_graph_is_not_closed_is_refused() {
    let mut body = ertl::Graph::new();
    body.insert_at_label(l(0), ertl::Instr::EConst(7, p(3), l(2)));
    let fun = ertl::Fun::new(Ident::new(0), 0, vec![], l(0), body);
    let mut supply = Supply { labels: 5, registers: 10 };
    match ltl_fun(&fun, &mut supply) {
        Err(LtlError::LivenessError(LivenessError::UnknownLabel(label))) => assert_eq!(label, l(2)),
        other => panic!("{:?}", other),
    }
}

fn operands(instr: &Instr) -> Vec<Operand> {
    match instr {
        Instr::EConst(_, a, _)
        | Instr::EMunop(_, a, _)
        | Instr::EMuBranch(_, a, _, _)
        | Instr::EPush(a, _)
        | Instr::EPop(a, _) => vec![*a],
        Instr::EMBinop(_, a, b, _) | Instr::EMbBranch(_, a, b, _, _) => vec![*a, *b],
        _ => vec![],
    }
}

fn successors(instr: &Instr) -> Vec<Label> {
    match instr {
        Instr::ELoad(_, _, _, next)
        | Instr::EStore(_, _, _, next)
        | Instr::EGoto(next)
        | Instr::EConst(_, _, next)
        | Instr::EMunop(_, _, next)
        | Instr::EMBinop(_, _, _, next)
        | Instr::EPush(_, next)
        | Instr::ECall(_, next)
        | Instr::EPop(_, next) => vec![*next],
        Instr::EMuBranch(_, _, first, second) | Instr::EMbBranch(_, _, _, first, second) => {
            vec![*first, *second]
        }
        Instr::EReturn => vec![],
    }
}

#[test]
fn every_label_of_a_located_function_is_defined() {
    let source = "int f(int a, int b, int c, int d, int e, int g, int h, int i) { \
            int s; int t; int u; int v; int w; int x; int y; int z; \
            s = a + 1; t = b + 2; u = c + 3; v = d + 4; w = e + 5; x = g + 6; y = h + 7; z = i + 8; \
            while (a) { a = a - 1; s = s + t * u - v / (w + 1); } \
            return s + t + u + v + w + x + y + z + a + b + c + d + e + g + h + i; } \
        int main() { putchar(f(1, 2, 3, 4, 5, 6, 7, 8)); return 0; }";
    let typed = minic_parse(source).expect("parse").minic_typ().expect("typ");
    let mut supply = Supply::new();
    let rtl = typed.minic_rtl(&mut supply).expect("rtl");
    let ertl = rtl.minic_ertl(&mut supply).expect("ertl");
    let ltl = ertl.minic_ltl(&mut supply).expect("ltl");
    assert_eq!(ltl.funs.len(), 2);
    let mut spilled = false;
    for (fun, before) in ltl.funs.iter().zip(&ertl.funs) {
        assert_eq!(fun.name, before.name);
        assert_eq!(fun.entry, before.entry);
        assert!(fun.body.instrs.contains(fun.entry));
        for label in fun.body.instrs.labels() {
            let instr = fun.body.instrs.get(label).expect("listed");
            for next in successors(instr) {
                assert!(fun.body.instrs.contains(next), "{:?} from {:?}", next, label);
            }
            for operand in operands(instr) {
                match operand {
                    Operand::Register(register) => assert!(register != R10 && register != R11),
                    Operand::Spilled(_) => spilled = true,
                }
            }
            if let Instr::EMBinop(Mbinop::MDiv, _, dest, _) = instr {
                assert_eq!(*dest, Operand::Register(Rax));
            }
        }
    }
    assert!(spilled);
}

use minic::coloring::color_graph;
use minic::common::Ident;
use minic::ertl::structure::register::PhysicalRegister::{
    R10, R11, R12, R13, R14, R15, R8, R9, Rax, Rbx, Rcx, Rdi, Rdx, Rsi,
};
use minic::ertl::structure::register::{PhysicalRegister, Register};
use minic::ertl::structure::{Graph, Instr};
use minic::interference::interference_graph;
use minic::interference::structure::InterferenceGraph;
use minic::liveness::dataflow::solve;
use minic::liveness::error::LivenessError;
use minic::liveness::structure::LivenessGraph;
use minic::liveness::{def_use, liveness_graph, succ};
use minic::ltl::structure::Operand;
use minic::minic_parse;
use minic::rtl::structure::label::Label;
use minic::rtl::structure::register::PseudoRegister;
use minic::rtl::structure::{MbBranch, Mbinop, MuBranch, Munop, Supply};

fn l(index: u32) -> Label {
    Label { index }
}

fn r(index: u32) -> PseudoRegister {
    PseudoRegister { index }
}

fn p(index: u32) -> Register {
    Register::Pseudo(r(index))
}

fn h(register: PhysicalRegister) -> Register {
    Register::Physical(register)
}

fn sorted(registers: &Vec<Register>) -> Vec<Register> {
    let mut out = registers.clone();
    out.sort();
    out.dedup();
    out
}

fn set(registers: &[Register]) -> Vec<Register> {
    sorted(&registers.to_vec())
}

fn callee() -> Vec<Register> {
    vec![h(Rbx), h(R12), h(R13), h(R14), h(R15)]
}

fn with_callee(registers: &[Register]) -> Vec<Register> {
    let mut all = callee();
    all.extend_from_slice(registers);
    sorted(&all)
}

fn graph_of(instrs: Vec<Instr>) -> Graph {
    let mut graph = Graph::new();
    for (index, instr) in instrs.into_iter().enumerate() {
        graph.insert_at_label(l(index as u32), instr);
    }
    graph
}

fn straight() -> Graph {
    graph_of(vec![
        Instr::EConst(1, p(1), l(1)),
        Instr::EConst(2, p(2), l(2)),
        Instr::EMBinop(Mbinop::MAdd, p(1), p(2), l(3)),
        Instr::EMBinop(Mbinop::MMov, p(2), h(Rax), l(4)),
        Instr::EReturn,
    ])
}

fn ins(graph: &LivenessGraph, label: u32) -> Vec<Register> {
    sorted(&graph.infos.get(l(label)).expect("label").ins)
}

fn outs(graph: &LivenessGraph, label: u32) -> Vec<Register> {
    sorted(&graph.infos.get(l(label)).expect("label").outs)
}

#[test]
fn what_each_instruction_writes_and_reads() {
    let table: Vec<(Instr, Vec<Register>, Vec<Register>)> = vec![
        (Instr::EConst(1, p(1), l(0)), vec![p(1)], vec![]),
        (Instr::EGetParam(6, p(1), l(0)), vec![p(1)], vec![]),
        (Instr::EMBinop(Mbinop::MMov, p(1), p(2), l(0)), vec![p(2)], vec![p(1)]),
        (Instr::ELoad(p(1), 8, p(2), l(0)), vec![p(2)], vec![p(1)]),
        (
            Instr::EMBinop(Mbinop::MDiv, p(1), h(Rax), l(0)),
            vec![h(Rax), h(Rdx)],
            vec![h(Rax), h(Rdx), p(1)],
        ),
        (Instr::EMBinop(Mbinop::MSub, p(1), p(2), l(0)), vec![p(2)], vec![p(1), p(2)]),
        (Instr::EMBinop(Mbinop::Msetl, p(1), p(2), l(0)), vec![p(2)], vec![p(1), p(2)]),
        (Instr::EMUnop(Munop::Maddi(1), p(1), l(0)), vec![p(1)], vec![p(1)]),
        (Instr::EMuBranch(MuBranch::MJz, p(1), l(0), l(1)), vec![], vec![p(1)]),
        (Instr::EPushParam(p(1), l(0)), vec![], vec![p(1)]),
        (Instr::EStore(p(1), p(2), 0, l(0)), vec![], vec![p(1), p(2)]),
        (Instr::EMbBranch(MbBranch::MJl, p(1), p(2), l(0), l(1)), vec![], vec![p(1), p(2)]),
        (
            Instr::ECall(Ident::new(5), 0, l(0)),
            vec![h(Rax), h(Rdi), h(Rsi), h(Rdx), h(Rcx), h(R8), h(R9)],
            vec![],
        ),
        (
            Instr::ECall(Ident::new(5), 2, l(0)),
            vec![h(Rax), h(Rdi), h(Rsi), h(Rdx), h(Rcx), h(R8), h(R9)],
            vec![h(Rdi), h(Rsi)],
        ),
        (
            Instr::ECall(Ident::new(5), 6, l(0)),
            vec![h(Rax), h(Rdi), h(Rsi), h(Rdx), h(Rcx), h(R8), h(R9)],
            vec![h(Rdi), h(Rsi), h(Rdx), h(Rcx), h(R8), h(R9)],
        ),
        (
            Instr::EReturn,
            vec![],
            vec![h(Rax), h(Rbx), h(R12), h(R13), h(R14), h(R15)],
        ),
        (Instr::EGoto(l(0)), vec![], vec![]),
        (Instr::EAllocFrame(l(0)), vec![], vec![]),
        (Instr::EDeleteFrame(l(0)), vec![], vec![]),
    ];
    for (instr, defs, uses) in table {
        assert_eq!(def_use(&instr), (defs, uses), "{:?}", instr);
    }
    assert_eq!(succ(&Instr::EReturn), vec![]);
    assert_eq!(succ(&Instr::EGoto(l(3))), vec![l(3)]);
    assert_eq!(succ(&Instr::EMuBranch(MuBranch::MJz, p(1), l(3), l(4))), vec![l(3), l(4)]);
}

#[test]
fn liveness_of_a_straight_line() {
    let live = liveness_graph(&straight()).expect("liveness");
    assert_eq!(ins(&live, 4), with_callee(&[h(Rax)]));
    assert_eq!(outs(&live, 4), vec![]);
    assert_eq!(ins(&live, 3), with_callee(&[p(2)]));
    assert_eq!(outs(&live, 3), with_callee(&[h(Rax)]));
    assert_eq!(ins(&live, 2), with_callee(&[p(1), p(2)]));
    assert_eq!(outs(&live, 2), with_callee(&[p(2)]));
    assert_eq!(ins(&live, 1), with_callee(&[p(1)]));
    assert_eq!(outs(&live, 1), with_callee(&[p(1), p(2)]));
    assert_eq!(ins(&live, 0), with_callee(&[]));
    assert_eq!(outs(&live, 0), with_callee(&[p(1)]));
    let info = live.infos.get(l(2)).expect("label");
    assert_eq!(info.instr, Instr::EMBinop(Mbinop::MAdd, p(1), p(2), l(3)));
    assert_eq!(info.succ, vec![l(3)]);
    assert_eq!(info.pred, vec![l(1)]);
    assert_eq!(info.defs, vec![p(2)]);
    assert_eq!(info.uses, vec![p(1), p(2)]);
    assert!(live.infos.get(l(0)).expect("label").pred.is_empty());
    assert_eq!(live.infos.labels().len(), 5);
}

#[test]
fn liveness_goes_round_a_loop() {
    let graph = graph_of(vec![
        Instr::EConst(3, p(1), l(1)),
        Instr::EMuBranch(MuBranch::MJz, p(1), l(3), l(2)),
        Instr::EMUnop(Munop::Maddi(-1), p(1), l(1)),
        Instr::EReturn,
    ]);
    let live = liveness_graph(&graph).expect("liveness");
    assert_eq!(ins(&live, 3), with_callee(&[h(Rax)]));
    assert_eq!(ins(&live, 2), with_callee(&[h(Rax), p(1)]));
    assert_eq!(outs(&live, 2), with_callee(&[h(Rax), p(1)]));
    assert_eq!(ins(&live, 1), with_callee(&[h(Rax), p(1)]));
    assert_eq!(outs(&live, 1), with_callee(&[h(Rax), p(1)]));
    assert_eq!(ins(&live, 0), with_callee(&[h(Rax)]));
    let mut pred = live.infos.get(l(1)).expect("label").pred.clone();
    pred.sort();
    assert_eq!(pred, vec![l(0), l(2)]);
}

#[test]
fn a_register_that_is_written_and_never_read_is_dead() {
    let graph = graph_of(vec![
        Instr::EConst(3, p(1), l(1)),
        Instr::EConst(4, p(1), l(2)),
        Instr::EMBinop(Mbinop::MMov, p(1), h(Rax), l(3)),
        Instr::EReturn,
    ]);
    let live = liveness_graph(&graph).expect("liveness");
    assert_eq!(outs(&live, 0), with_callee(&[]));
    assert_eq!(outs(&live, 1), with_callee(&[p(1)]));
}

#[test]
fn a_way_to_no_instruction_is_an_error() {
    let graph = graph_of(vec![Instr::EConst(3, p(1), l(7))]);
    match liveness_graph(&graph) {
        Err(LivenessError::UnknownLabel(label)) => assert_eq!(label, l(7)),
        Ok(_) => panic!("analysed"),
    }
    assert!(liveness_graph(&Graph::new()).expect("liveness").infos.labels().is_empty());
}

#[test]
fn the_least_rows_of_a_small_problem() {
    let succ = vec![vec![1], vec![2, 0], vec![]];
    let gen = vec![vec![false, false], vec![true, false], vec![false, true]];
    let kill = vec![vec![true, false], vec![false, false], vec![false, false]];
    let rows = solve(&succ, &gen, &kill, 2);
    assert_eq!(rows, vec![vec![false, true], vec![true, true], vec![false, true]]);
    assert_eq!(solve(&vec![], &vec![], &vec![], 3), Vec::<Vec<bool>>::new());
}

fn arcs(graph: &InterferenceGraph, register: Register) -> (Vec<Register>, Vec<Register>) {
    let arc = graph.arc(register).expect("vertex");
    (sorted(&arc.prefs), sorted(&arc.intfs))
}

#[test]
fn interference_of_a_straight_line() {
    let live = liveness_graph(&straight()).expect("liveness");
    let graph = interference_graph(&live).expect("interference");
    assert_eq!(arcs(&graph, p(1)), (vec![], with_callee(&[p(2)])));
    assert_eq!(arcs(&graph, p(2)), (set(&[h(Rax)]), with_callee(&[p(1)])));
    assert_eq!(arcs(&graph, h(Rax)), (set(&[p(2)]), with_callee(&[])));
    assert_eq!(arcs(&graph, h(Rbx)), (vec![], set(&[p(1), p(2), h(Rax)])));
    let mut vertices: Vec<_> = graph.arcs.iter().map(|arc| arc.0).collect();
    vertices.sort();
    assert_eq!(vertices, with_callee(&[p(1), p(2), h(Rax)]));
    assert!(graph.arc(p(3)).is_none());
    assert!(graph.arc(h(R10)).is_none());
}

#[test]
fn a_move_does_not_set_its_two_sides_apart() {
    let graph = graph_of(vec![
        Instr::EConst(3, p(1), l(1)),
        Instr::EMBinop(Mbinop::MMov, p(1), p(2), l(2)),
        Instr::EMBinop(Mbinop::MAdd, p(1), p(2), l(3)),
        Instr::EMBinop(Mbinop::MMov, p(2), h(Rax), l(4)),
        Instr::EReturn,
    ]);
    let live = liveness_graph(&graph).expect("liveness");
    assert_eq!(outs(&live, 1), with_callee(&[p(1), p(2)]));
    let graph = interference_graph(&live).expect("interference");
    assert_eq!(arcs(&graph, p(1)), (set(&[p(2)]), with_callee(&[])));
    assert_eq!(arcs(&graph, p(2)), (set(&[p(1), h(Rax)]), with_callee(&[])));
}

#[test]
fn a_preference_gives_way_to_an_interference() {
    let graph = graph_of(vec![
        Instr::EConst(3, p(1), l(1)),
        Instr::EMBinop(Mbinop::MMov, p(1), p(2), l(2)),
        Instr::EConst(4, p(1), l(3)),
        Instr::EMBinop(Mbinop::MAdd, p(1), p(2), l(4)),
        Instr::EMBinop(Mbinop::MMov, p(2), h(Rax), l(5)),
        Instr::EReturn,
    ]);
    let live = liveness_graph(&graph).expect("liveness");
    let graph = interference_graph(&live).expect("interference");
    assert_eq!(arcs(&graph, p(1)), (vec![], with_callee(&[p(2)])));
    assert_eq!(arcs(&graph, p(2)), (set(&[h(Rax)]), with_callee(&[p(1)])));
}

#[test]
fn edges_of_a_graph_built_by_hand() {
    let mut graph = InterferenceGraph::new();
    graph.vertex(p(1));
    graph.vertex(p(1));
    assert_eq!(graph.arcs.len(), 1);
    graph.pref(p(1), p(2));
    graph.pref(p(2), p(3));
    graph.intf(p(1), p(2));
    graph.intf(p(1), p(2));
    assert_eq!(arcs(&graph, p(1)), (set(&[p(2)]), set(&[p(2)])));
    assert_eq!(arcs(&graph, p(2)), (set(&[p(1), p(3)]), set(&[p(1)])));
    assert_eq!(graph.arc(p(1)).expect("vertex").intfs.len(), 1);
    graph.remove_pref_when_intf();
    assert_eq!(arcs(&graph, p(1)), (vec![], set(&[p(2)])));
    assert_eq!(arcs(&graph, p(2)), (set(&[p(3)]), set(&[p(1)])));
    assert_eq!(arcs(&graph, p(3)), (set(&[p(2)]), vec![]));
    assert_eq!(graph.position(p(1)), Some(0));
    assert_eq!(graph.position(p(9)), None);
}

const ALLOCATABLE: [PhysicalRegister; 12] =
    [Rax, Rdi, Rsi, Rdx, Rcx, R8, R9, Rbx, R12, R13, R14, R15];

fn all_but(graph: &mut InterferenceGraph, register: Register, free: &[PhysicalRegister]) {
    for color in ALLOCATABLE {
        if !free.contains(&color) {
            graph.intf(register, h(color));
        }
    }
}

#[test]
fn coloring_of_a_straight_line() {
    let live = liveness_graph(&straight()).expect("liveness");
    let graph = interference_graph(&live).expect("interference");
    let coloring = color_graph(&graph).expect("coloring");
    assert_eq!(coloring.get(r(2)), Some(Operand::Register(Rax)));
    match coloring.get(r(1)) {
        Some(Operand::Register(color)) => {
            assert!([Rdi, Rsi, Rdx, Rcx, R8, R9].contains(&color), "{:?}", color)
        }
        other => panic!("{:?}", other),
    }
    assert_eq!(coloring.get(r(3)), None);
    assert_eq!(coloring.count_on_stack, 0);
    assert_eq!(coloring.colors.keys().len(), 2);
}

#[test]
fn a_register_without_candidates_goes_to_the_frame() {
    let mut graph = InterferenceGraph::new();
    all_but(&mut graph, p(1), &[]);
    all_but(&mut graph, p(2), &[]);
    all_but(&mut graph, p(3), &[R15]);
    graph.intf(p(1), p(2));
    let coloring = color_graph(&graph).expect("coloring");
    assert_eq!(coloring.get(r(3)), Some(Operand::Register(R15)));
    let mut slots = vec![coloring.get(r(1)), coloring.get(r(2))];
    slots.sort_by_key(|slot| match slot {
        Some(Operand::Spilled(slot)) => *slot,
        other => panic!("{:?}", other),
    });
    assert_eq!(slots, vec![Some(Operand::Spilled(0)), Some(Operand::Spilled(1))]);
    assert_eq!(coloring.count_on_stack, 2);
}

#[test]
fn a_single_candidate_with_a_preference_comes_first() {
    let mut graph = InterferenceGraph::new();
    all_but(&mut graph, p(1), &[Rdx]);
    all_but(&mut graph, p(2), &[Rdx]);
    graph.intf(p(1), p(2));
    graph.pref(p(2), h(Rdx));
    let coloring = color_graph(&graph).expect("coloring");
    assert_eq!(coloring.get(r(2)), Some(Operand::Register(Rdx)));
    assert_eq!(coloring.get(r(1)), Some(Operand::Spilled(0)));
    assert_eq!(coloring.count_on_stack, 1);
}

#[test]
fn a_single_candidate_comes_before_a_preference() {
    let mut graph = InterferenceGraph::new();
    all_but(&mut graph, p(1), &[Rdx, Rcx]);
    all_but(&mut graph, p(2), &[Rdx]);
    graph.intf(p(1), p(2));
    graph.pref(p(1), h(Rdx));
    let coloring = color_graph(&graph).expect("coloring");
    assert_eq!(coloring.get(r(2)), Some(Operand::Register(Rdx)));
    assert_eq!(coloring.get(r(1)), Some(Operand::Register(Rcx)));
    assert_eq!(coloring.count_on_stack, 0);
}

#[test]
fn a_preference_for_a_colored_register_is_followed() {
    let mut graph = InterferenceGraph::new();
    all_but(&mut graph, p(1), &[R14]);
    all_but(&mut graph, p(2), &[Rsi, R14, R15]);
    graph.pref(p(1), p(2));
    let coloring = color_graph(&graph).expect("coloring");
    assert_eq!(coloring.get(r(1)), Some(Operand::Register(R14)));
    assert_eq!(coloring.get(r(2)), Some(Operand::Register(R14)));
}

#[test]
fn scratch_registers_are_never_colors() {
    let source = "int main() { int a; int b; int c; int d; int e; int f; int g; int h; int i; int j; int k; int m; int n; int o; \
        a = 1; b = 2; c = 3; d = 4; e = 5; f = 6; g = 7; h = 8; i = 9; j = 10; k = 11; m = 12; n = 13; o = 14; \
        putchar(a + b + c + d + e + f + g + h + i + j + k + m + n + o); return 0; }";
    let typed = minic_parse(source).expect("parse").minic_typ().expect("typ");
    let mut supply = Supply::new();
    let rtl = typed.minic_rtl(&mut supply).expect("rtl");
    let ertl = rtl.minic_ertl(&mut supply).expect("ertl");
    for fun in &ertl.funs {
        let live = liveness_graph(&fun.body).expect("liveness");
        let graph = interference_graph(&live).expect("interference");
        let coloring = color_graph(&graph).expect("coloring");
        let mut spilled = Vec::new();
        for arc in &graph.arcs {
            if let Register::Pseudo(register) = arc.0 {
                match coloring.get(register).expect("every register has a color") {
                    Operand::Register(color) => {
                        assert!(ALLOCATABLE.contains(&color));
                        assert!(color != R10 && color != R11);
                        for other in &arc.1.intfs {
                            match other {
                                Register::Physical(taken) => assert!(*taken != color),
                                Register::Pseudo(q) => {
                                    assert!(coloring.get(*q) != Some(Operand::Register(color)))
                                }
                            }
                        }
                    }
                    Operand::Spilled(slot) => spilled.push(slot),
                }
            }
        }
        spilled.sort();
        let expected: Vec<usize> = (0..coloring.count_on_stack).collect();
        assert_eq!(spilled, expected);
        assert!(coloring.count_on_stack >= 1);
    }
}

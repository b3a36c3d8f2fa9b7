use minic::common::Ident;
use minic::minic_parse;
use minic::parser::structure::Binop;
use minic::rtl::error::RtlError;
use minic::rtl::structure::graph::Graph;
use minic::rtl::structure::label::Label;
use minic::rtl::structure::register::PseudoRegister;
use minic::rtl::structure::{File, Fresh, Fun, Instr, MbBranch, Mbinop, MuBranch, Munop, Supply};
use minic::rtl::{binop_of, bind, fresh_label, fresh_register, place, rtl_expr, rtl_fun};
use minic::typer::structure as typed;
use minic::typer::structure::{BlockIdent, Typ};

fn l(index: u32) -> Label {
    Label { index }
}

fn r(index: u32) -> PseudoRegister {
    PseudoRegister { index }
}

fn lower(source: &str) -> File {
    let typed = minic_parse(source).expect("parse").minic_typ().expect("typ");
    typed.minic_rtl(&mut Supply::new()).expect("rtl")
}

fn text(fun: &Fun, label: u32) -> String {
    format!("{:?}", fun.graph.get(l(label)).expect("instruction"))
}

fn successors(instr: &Instr) -> Vec<Label> {
    match instr {
        Instr::EConst(_, _, next)
        | Instr::ELoad(_, _, _, next)
        | Instr::EStore(_, _, _, next)
        | Instr::EMUnop(_, _, next)
        | Instr::EMBinop(_, _, _, next)
        | Instr::ECall(_, _, _, next)
        | Instr::EGoto(next) => vec![*next],
        Instr::EMuBranch(_, _, first, second) | Instr::EMbBranch(_, _, _, first, second) => {
            vec![*first, *second]
        }
    }
}

fn assert_closed(fun: &Fun) {
    assert!(fun.graph.get(fun.entry).is_some() || fun.entry == fun.exit);
    assert!(fun.graph.get(fun.exit).is_none());
    for label in fun.graph.labels() {
        for next in successors(fun.graph.get(label).expect("listed")) {
            assert!(next == fun.exit || fun.graph.get(next).is_some(), "{:?}", next);
        }
    }
}

#[test]
fn a_constant_is_one_instruction() {
    let file = lower("int main() { return 42; }");
    let main = &file.funs[0];
    assert_eq!(main.result, r(1));
    assert_eq!(main.exit, l(0));
    assert_eq!(main.entry, l(1));
    assert_eq!(text(main, 1), format!("{:?}", Instr::EConst(42, r(1), l(0))));
    assert_eq!(main.graph.labels(), vec![l(1)]);
    assert!(main.arguments.is_empty());
    assert!(main.locals.is_empty());
}

#[test]
fn the_left_operand_is_the_destination() {
    let file = lower("int main() { return 7 - 2; }");
    let main = &file.funs[0];
    assert_eq!(main.entry, l(3));
    assert_eq!(text(main, 3), format!("{:?}", Instr::EConst(7, r(1), l(2))));
    assert_eq!(text(main, 2), format!("{:?}", Instr::EConst(2, r(2), l(1))));
    assert_eq!(text(main, 1), format!("{:?}", Instr::EMBinop(Mbinop::MSub, r(2), r(1), l(0))));
    assert_closed(main);
}

#[test]
fn every_operator_has_its_operation() {
    assert_eq!(binop_of(Binop::BAdd), Some(Mbinop::MAdd));
    assert_eq!(binop_of(Binop::BSub), Some(Mbinop::MSub));
    assert_eq!(binop_of(Binop::BMul), Some(Mbinop::MMul));
    assert_eq!(binop_of(Binop::BDiv), Some(Mbinop::MDiv));
    assert_eq!(binop_of(Binop::BEq), Some(Mbinop::MSete));
    assert_eq!(binop_of(Binop::BNeq), Some(Mbinop::MSetne));
    assert_eq!(binop_of(Binop::BLt), Some(Mbinop::Msetl));
    assert_eq!(binop_of(Binop::BLe), Some(Mbinop::Msetle));
    assert_eq!(binop_of(Binop::BGt), Some(Mbinop::Msetg));
    assert_eq!(binop_of(Binop::BGe), Some(Mbinop::Msetge));
    assert_eq!(binop_of(Binop::BAnd), None);
    assert_eq!(binop_of(Binop::BOr), None);
}

#[test]
fn variables_are_registers() {
    let file = lower("int f(int a, int b) { int x; x = a; return x; } int main() { return 0; }");
    let f = &file.funs[0];
    assert_eq!(f.result, r(1));
    assert_eq!(f.arguments, vec![r(2), r(3)]);
    assert_eq!(f.locals.len(), 1);
    assert_eq!(f.locals[0].1, r(4));
    assert_eq!(f.exit, l(0));
    assert_eq!(text(f, 1), format!("{:?}", Instr::EMBinop(Mbinop::MMov, r(4), r(1), l(0))));
    assert_eq!(text(f, 2), format!("{:?}", Instr::EMBinop(Mbinop::MMov, r(4), r(5), l(1))));
    assert_eq!(text(f, 3), format!("{:?}", Instr::EMBinop(Mbinop::MMov, r(2), r(4), l(2))));
    assert_eq!(f.entry, l(3));
    assert_eq!(f.graph.register_of(f.locals[0].0), Some(r(4)));
    assert_closed(f);
}

#[test]
fn negation_and_not() {
    let file = lower("int main() { return -5; }");
    let main = &file.funs[0];
    assert_eq!(text(main, 3), format!("{:?}", Instr::EConst(5, r(2), l(2))));
    assert_eq!(text(main, 2), format!("{:?}", Instr::EConst(0, r(1), l(1))));
    assert_eq!(text(main, 1), format!("{:?}", Instr::EMBinop(Mbinop::MSub, r(2), r(1), l(0))));
    let file = lower("int main() { return !5; }");
    let main = &file.funs[0];
    assert_eq!(text(main, 2), format!("{:?}", Instr::EConst(5, r(1), l(1))));
    assert_eq!(text(main, 1), format!("{:?}", Instr::EMUnop(Munop::Msetei(0), r(1), l(0))));
}

#[test]
fn fields_are_words_eight_bytes_apart() {
    let file = lower(
        "struct S { int a; int b; int c; }; int main() { struct S *p; p->c = 9; return p->b; }",
    );
    let main = &file.funs[0];
    let p = main.locals[0].1;
    let mut loads = 0;
    let mut stores = 0;
    for label in main.graph.labels() {
        match main.graph.get(label).expect("listed") {
            Instr::ELoad(_, offset, dest, _) => {
                assert_eq!(*offset, 8);
                assert_eq!(*dest, main.result);
                loads += 1;
            }
            Instr::EStore(_, _, offset, _) => {
                assert_eq!(*offset, 16);
                stores += 1;
            }
            _ => {}
        }
    }
    assert_eq!((loads, stores), (1, 1));
    assert_eq!(p, r(2));
    assert_closed(main);
}

#[test]
fn a_conjunction_jumps_over_its_right_side() {
    let file = lower("int main() { return 3 && 4; }");
    let main = &file.funs[0];
    assert_eq!(text(main, 1), format!("{:?}", Instr::EConst(1, r(1), l(0))));
    assert_eq!(text(main, 2), format!("{:?}", Instr::EMuBranch(MuBranch::MJz, r(1), l(0), l(1))));
    assert_eq!(text(main, 3), format!("{:?}", Instr::EConst(4, r(1), l(2))));
    assert_eq!(text(main, 4), format!("{:?}", Instr::EMuBranch(MuBranch::MJz, r(1), l(0), l(3))));
    assert_eq!(text(main, 5), format!("{:?}", Instr::EConst(3, r(1), l(4))));
    assert_eq!(main.entry, l(5));
    let file = lower("int main() { return 3 || 4; }");
    let main = &file.funs[0];
    assert_eq!(text(main, 4), format!("{:?}", Instr::EMuBranch(MuBranch::MJnz, r(1), l(1), l(3))));
    assert_closed(main);
}

#[test]
fn a_loop_goes_back_to_its_test() {
    let file = lower("int main() { int i; while (i) i = i - 1; return 0; }");
    let main = &file.funs[0];
    assert_closed(main);
    let mut tests = Vec::new();
    let mut backs = Vec::new();
    for label in main.graph.labels() {
        match main.graph.get(label).expect("listed") {
            Instr::EMuBranch(MuBranch::MJz, _, after, body) => tests.push((label, *after, *body)),
            Instr::EGoto(back) => backs.push(*back),
            _ => {}
        }
    }
    assert_eq!(tests.len(), 1);
    assert_eq!(backs, vec![main.entry]);
    let (test, after, body) = tests[0];
    assert!(matches!(
        main.graph.get(main.entry),
        Some(Instr::EMBinop(Mbinop::MMov, _, _, next)) if *next == test
    ));
    assert!(matches!(main.graph.get(after), Some(Instr::EConst(0, _, _))));
    assert!(main.graph.get(body).is_some());
}

#[test]
fn a_choice_tests_for_non_zero() {
    let file = lower("int main() { if (1) return 2; else return 3; return 4; }");
    let main = &file.funs[0];
    assert_closed(main);
    let mut seen = 0;
    for label in main.graph.labels() {
        if let Instr::EMuBranch(op, _, then, otherwise) = main.graph.get(label).expect("listed") {
            assert_eq!(*op, MuBranch::MJnz);
            assert!(matches!(main.graph.get(*then), Some(Instr::EConst(2, _, _))));
            assert!(matches!(main.graph.get(*otherwise), Some(Instr::EConst(3, _, _))));
            seen += 1;
        }
    }
    assert_eq!(seen, 1);
}

#[test]
fn arguments_are_evaluated_first_to_last() {
    let file = lower("int f(int a, int b, int c) { return a; } int main() { return f(1, 2, 3); }");
    let main = &file.funs[1];
    let f = &file.funs[0];
    assert_closed(main);
    let mut at = main.entry;
    let mut constants = Vec::new();
    let mut registers = Vec::new();
    loop {
        match main.graph.get(at).expect("path") {
            Instr::EConst(value, register, next) => {
                constants.push(*value);
                registers.push(*register);
                at = *next;
            }
            Instr::ECall(dest, name, args, next) => {
                assert_eq!(*dest, main.result);
                assert_eq!(*name, f.name);
                assert_eq!(args, &registers);
                assert_eq!(*next, main.exit);
                break;
            }
            other => panic!("{:?}", other),
        }
    }
    assert_eq!(constants, vec![1, 2, 3]);
    assert_eq!(registers.len(), 3);
    assert!(registers[0] != registers[1] && registers[1] != registers[2]);
}

#[test]
fn handles_are_drawn_once() {
    let mut supply = Supply::new();
    assert_eq!(fresh_label(&mut supply), Ok(l(0)));
    assert_eq!(fresh_label(&mut supply), Ok(l(1)));
    assert_eq!(fresh_register(&mut supply), Ok(r(1)));
    assert_eq!(fresh_register(&mut supply), Ok(r(2)));
    assert_eq!(supply, Supply { labels: 2, registers: 3 });
    assert_eq!(Label::fresh(&mut supply), Some(l(2)));
    assert_eq!(PseudoRegister::fresh(&mut supply), Some(r(3)));
    supply.reset();
    assert_eq!(supply, Supply::new());
    let mut spent = Supply { labels: u32::MAX, registers: u32::MAX };
    assert_eq!(fresh_label(&mut spent), Err(RtlError::Exhausted));
    assert_eq!(fresh_register(&mut spent), Err(RtlError::Exhausted));
    assert_eq!(spent, Supply { labels: u32::MAX, registers: u32::MAX });
    let mut last = Supply { labels: u32::MAX - 1, registers: 1 };
    assert_eq!(fresh_label(&mut last), Ok(l(u32::MAX - 1)));
    assert_eq!(fresh_label(&mut last), Err(RtlError::Exhausted));
}

#[test]
fn labels_of_a_graph() {
    let mut graph = Graph::new(vec![]);
    let mut supply = Supply::new();
    assert_eq!(place(&mut graph, &mut supply, Instr::EGoto(l(9))), Ok(l(0)));
    assert_eq!(place(&mut graph, &mut supply, Instr::EConst(1, r(1), l(0))), Ok(l(1)));
    graph.insert_with_label(l(9), Instr::EGoto(l(1)));
    graph.insert_with_label(l(4), Instr::EGoto(l(1)));
    graph.insert_with_label(l(0), Instr::EGoto(l(1)));
    assert_eq!(graph.labels(), vec![l(0), l(1), l(4), l(9)]);
    assert!(matches!(graph.get(l(0)), Some(Instr::EGoto(next)) if *next == l(1)));
    assert!(graph.get(l(2)).is_none());
    let mut spent = Supply { labels: u32::MAX, registers: 1 };
    assert_eq!(
        place(&mut graph, &mut spent, Instr::EGoto(l(0))),
        Err(RtlError::Exhausted)
    );
    assert_eq!(graph.insert(&mut spent, Instr::EGoto(l(0))), None);
    assert_eq!(graph.labels().len(), 4);
}

fn word(node: typed::ExprNode) -> typed::Expr {
    typed::Expr::new(node, Typ::TInt)
}

#[test]
fn a_variable_without_a_register_is_an_error() {
    let x = BlockIdent::Local(1, Ident::new(7));
    let y = BlockIdent::Local(1, Ident::new(8));
    let mut graph = Graph::new(vec![(x, r(5))]);
    let mut supply = Supply { labels: 3, registers: 6 };
    let found = rtl_expr(&mut graph, &mut supply, r(9), l(0), &word(typed::ExprNode::EAccessLocal(x)));
    assert_eq!(found, Ok(l(3)));
    assert!(matches!(
        graph.get(l(3)),
        Some(Instr::EMBinop(Mbinop::MMov, from, to, next)) if *from == r(5) && *to == r(9) && *next == l(0)
    ));
    let missing = rtl_expr(&mut graph, &mut supply, r(9), l(0), &word(typed::ExprNode::EAccessLocal(y)));
    assert_eq!(missing, Err(RtlError::VarNotFound(y)));
    let assigned = rtl_expr(
        &mut graph,
        &mut supply,
        r(9),
        l(0),
        &word(typed::ExprNode::EAssignLocal(y, Box::new(word(typed::ExprNode::EConst(1))))),
    );
    assert_eq!(assigned, Err(RtlError::VarNotFound(y)));
}

#[test]
fn a_name_bound_twice_is_an_error() {
    let x = BlockIdent::Local(1, Ident::new(7));
    let mut vars = Vec::new();
    let mut supply = Supply::new();
    assert_eq!(bind(&mut vars, &mut supply, x), Ok(r(1)));
    assert_eq!(bind(&mut vars, &mut supply, x), Err(RtlError::DuplicateBlockIdent(x)));
    assert_eq!(vars, vec![(x, r(1))]);
    let fun = typed::Fun::new(
        typed::Signature::new(Ident::new(5), Typ::TInt, vec![]),
        vec![x, x],
        typed::Block::new(vec![]),
    );
    assert!(matches!(
        rtl_fun(&fun, &mut Supply::new()),
        Err(RtlError::DuplicateBlockIdent(_))
    ));
    let empty = typed::Fun::new(
        typed::Signature::new(Ident::new(5), Typ::TInt, vec![]),
        vec![x],
        typed::Block::new(vec![]),
    );
    let lowered = rtl_fun(&empty, &mut Supply::new()).expect("rtl");
    assert_eq!(lowered.entry, lowered.exit);
    assert!(lowered.graph.labels().is_empty());
    assert!(matches!(
        rtl_fun(&empty, &mut Supply { labels: u32::MAX, registers: 1 }),
        Err(RtlError::Exhausted)
    ));
}

#[test]
fn branches_on_two_registers_have_two_ways() {
    assert_eq!(
        successors(&Instr::EMbBranch(MbBranch::MJl, r(1), r(2), l(3), l(4))),
        vec![l(3), l(4)]
    );
    assert_eq!(
        successors(&Instr::EMuBranch(MuBranch::MJlei(3), r(1), l(3), l(4))),
        vec![l(3), l(4)]
    );
}

#[test]
fn every_label_of_a_lowered_function_is_defined() {
    let file = lower(
        "struct L { int v; struct L *n; }; \
         int sum(struct L *l) { int s; s = 0; while (l) { if (l->v > 0 && l->v != 7 || !l->v) s = s + l->v; else s = s - 1; l = l->n; } return s; } \
         int main() { struct L *a; a = malloc(sizeof(struct L)); a->v = 65; a->n = 0; putchar(sum(a)); return 0; }",
    );
    assert_eq!(file.funs.len(), 2);
    for fun in &file.funs {
        assert_closed(fun);
    }
}

#[test]
fn locals_are_shown_under_their_block() {
    let typed = minic_parse("int f(int a) { int x; { int y; y = a; } x = 1; return x; } int main() { return 0; }")
        .expect("parse")
        .minic_typ()
        .expect("typ");
    let file = typed.minic_rtl(&mut Supply::new()).expect("rtl");
    let shown: Vec<(String, PseudoRegister)> = file.funs[0]
        .graph
        .locals(&typed.names)
        .into_iter()
        .map(|var| (var.name, var.register))
        .collect();
    assert_eq!(shown, vec![(String::from("x_1"), r(3)), (String::from("y_2"), r(4))]);
    assert!(file.funs[1].graph.locals(&typed.names).is_empty());
}

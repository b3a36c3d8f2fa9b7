pub mod dataflow;
pub mod encoding;
pub mod error;
pub mod model;
pub mod structure;

use crate::ertl::structure::register::{
    callee_save, caller_save, parameter, PhysicalRegister, Register, CALLEE_SAVED_COUNT,
    CALLER_SAVED_COUNT, PARAMETER_COUNT,
};
use crate::ertl::structure::{Graph, Instr, Label, Mbinop};
use crate::liveness::dataflow::{edges, flows, least, matrix, shaped, solution, solve, stable};
use crate::liveness::encoding::{collect, encode, out_row, row_set, rows, select, Encoding};
use crate::liveness::error::LivenessError;
use crate::liveness::model::{
    analysed, closed, defs_model, ins_of, live_out, predecessors, solves, uses_model,
};
use crate::liveness::structure::{InfoView, LivenessGraph, LivenessInfo};
use crate::utils::LabelMap;
use vstd::prelude::*;

verus! {

/// The labels that control may reach after `instr`.
pub fn succ(instr: &Instr) -> (r: Vec<Label>)
    ensures
        r@ == instr.successors(),
{
    let mut out: Vec<Label> = Vec::new();
    match instr {
        Instr::EConst(_, _, l)
        | Instr::ELoad(_, _, _, l)
        | Instr::EStore(_, _, _, l)
        | Instr::EMUnop(_, _, l)
        | Instr::EMBinop(_, _, _, l)
        | Instr::ECall(_, _, l)
        | Instr::EGoto(l)
        | Instr::EAllocFrame(l)
        | Instr::EDeleteFrame(l)
        | Instr::EGetParam(_, _, l)
        | Instr::EPushParam(_, l) => {
            out.push(*l);
            assert(out@ =~= seq![*l]);
        },
        Instr::EMuBranch(_, _, l1, l2) | Instr::EMbBranch(_, _, _, l1, l2) => {
            out.push(*l1);
            out.push(*l2);
            assert(out@ =~= seq![*l1, *l2]);
        },
        Instr::EReturn => {
            assert(out@ =~= Seq::<Label>::empty());
        },
    }
    out
}

/// A vector of the given registers.
fn registers_1(a: Register) -> (r: Vec<Register>)
    ensures
        r@ == seq![a],
{
    let mut out: Vec<Register> = Vec::new();
    out.push(a);
    assert(out@ =~= seq![a]);
    out
}

/// A vector of the given registers.
fn registers_2(a: Register, b: Register) -> (r: Vec<Register>)
    ensures
        r@ == seq![a, b],
{
    let mut out: Vec<Register> = Vec::new();
    out.push(a);
    out.push(b);
    assert(out@ =~= seq![a, b]);
    out
}

/// The registers that `instr` writes, and those that it reads.
pub fn def_use(instr: &Instr) -> (r: (Vec<Register>, Vec<Register>))
    ensures
        r.0@ == defs_model(*instr),
        r.1@ == uses_model(*instr),
{
    match instr {
        Instr::EConst(_, r, _) | Instr::EGetParam(_, r, _) => (registers_1(*r), Vec::new()),
        Instr::EMuBranch(_, r, _, _) | Instr::EPushParam(r, _) => (Vec::new(), registers_1(*r)),
        Instr::EMUnop(_, r, _) => (registers_1(*r), registers_1(*r)),
        Instr::EMBinop(Mbinop::MMov, rs, rd, _) | Instr::ELoad(rs, _, rd, _) => (
            registers_1(*rd),
            registers_1(*rs),
        ),
        Instr::EMBinop(Mbinop::MDiv, rs, _, _) => {
            let rax = Register::Physical(PhysicalRegister::Rax);
            let rdx = Register::Physical(PhysicalRegister::Rdx);
            let mut used = registers_2(rax, rdx);
            used.push(*rs);
            assert(used@ =~= seq![rax, rdx, *rs]);
            (registers_2(rax, rdx), used)
        },
        Instr::EMBinop(_, rs, rd, _) => (registers_1(*rd), registers_2(*rs, *rd)),
        Instr::EStore(r1, r2, _, _) | Instr::EMbBranch(_, r1, r2, _, _) => (
            Vec::new(),
            registers_2(*r1, *r2),
        ),
        Instr::ECall(_, n, _) => {
            let mut defs: Vec<Register> = Vec::new();
            let mut i: usize = 0;
            while i < CALLER_SAVED_COUNT
                invariant
                    i <= CALLER_SAVED_COUNT,
                    defs@.len() == i,
                    forall|k: int|
                        0 <= k < i ==> defs@[k] == Register::Physical(
                            crate::ertl::structure::register::caller_saved()[k],
                        ),
                decreases CALLER_SAVED_COUNT - i,
            {
                defs.push(Register::Physical(caller_save(i)));
                i = i + 1;
            }
            let count: usize = if (*n as usize) <= PARAMETER_COUNT {
                *n as usize
            } else {
                PARAMETER_COUNT
            };
            let mut used: Vec<Register> = Vec::new();
            let mut j: usize = 0;
            while j < count
                invariant
                    j <= count <= PARAMETER_COUNT,
                    used@.len() == j,
                    forall|k: int|
                        0 <= k < j ==> used@[k] == Register::Physical(
                            crate::ertl::structure::register::parameters()[k],
                        ),
                decreases count - j,
            {
                used.push(Register::Physical(parameter(j)));
                j = j + 1;
            }
            assert(defs@ =~= defs_model(*instr));
            assert(used@ =~= uses_model(*instr));
            (defs, used)
        },
        Instr::EGoto(_) | Instr::EAllocFrame(_) | Instr::EDeleteFrame(_) => (
            Vec::new(),
            Vec::new(),
        ),
        Instr::EReturn => {
            let mut used = registers_1(Register::Physical(PhysicalRegister::Rax));
            let mut i: usize = 0;
            while i < CALLEE_SAVED_COUNT
                invariant
                    i <= CALLEE_SAVED_COUNT,
                    used@.len() == i + 1,
                    used@[0] == Register::Physical(PhysicalRegister::Rax),
                    forall|k: int|
                        0 <= k < i ==> used@[k + 1] == Register::Physical(
                            crate::ertl::structure::register::callee_saved()[k],
                        ),
                decreases CALLEE_SAVED_COUNT - i,
            {
                used.push(Register::Physical(callee_save(i)));
                i = i + 1;
            }
            assert(used@ =~= uses_model(*instr));
            (Vec::new(), used)
        },
    }
}

pub type LivenessResult<T> = Result<T, LivenessError>;

/// The bit rows `gen` and `kill` say which registers of `universe` each
/// instruction reads and writes, and `universe` holds every register read.
pub open spec fn rows_fit(
    encoding: Encoding,
    universe: Seq<Register>,
    gen: Seq<Seq<bool>>,
    kill: Seq<Seq<bool>>,
) -> bool {
    let n = encoding.uses@.len();
    let m = universe.len();
    &&& universe.no_duplicates()
    &&& shaped(gen, n, m)
    &&& shaped(kill, n, m)
    &&& forall|i: int, k: int|
        0 <= i < n && 0 <= k < encoding.uses@[i]@.len() ==> universe.contains(
            #[trigger] encoding.uses@[i]@[k],
        )
    &&& forall|i: int, j: int|
        0 <= i < n && 0 <= j < m ==> (#[trigger] gen[i][j]) == encoding.uses@[i]@.contains(
            universe[j],
        )
    &&& forall|i: int, j: int|
        0 <= i < n && 0 <= j < m ==> (#[trigger] kill[i][j]) == encoding.defs@[i]@.contains(
            universe[j],
        )
}

/// `live` gives each label the registers whose bits are set in its row of `x`.
pub open spec fn decodes(
    labels: Seq<Label>,
    universe: Seq<Register>,
    x: Seq<Seq<bool>>,
    live: Map<Label, Set<Register>>,
) -> bool {
    forall|a: int| 0 <= a < labels.len() ==> live[#[trigger] labels[a]] == row_set(universe, x[a])
}

/// A solution on bit rows, read as sets of registers, solves the liveness
/// inequations.
pub proof fn lemma_solves(
    graph: Map<Label, Instr>,
    labels: Seq<Label>,
    encoding: Encoding,
    universe: Seq<Register>,
    gen: Seq<Seq<bool>>,
    kill: Seq<Seq<bool>>,
    x: Seq<Seq<bool>>,
    live: Map<Label, Set<Register>>,
)
    requires
        encoding.encodes(graph, labels),
        rows_fit(encoding, universe, gen, kill),
        shaped(x, labels.len(), universe.len()),
        solution(edges(encoding.succ_idx), gen, kill, x),
        decodes(labels, universe, x, live),
    ensures
        solves(graph, live),
{
    let succ = edges(encoding.succ_idx);
    assert forall|l: Label| #[trigger] graph.contains_key(l) implies {
        &&& forall|r: Register| #[trigger]
            uses_model(graph[l]).contains(r) ==> live[l].contains(r)
        &&& forall|k: int, r: Register|
            0 <= k < graph[l].successors().len() && #[trigger] live[graph[l].successors()[k]].contains(
                r,
            ) && !defs_model(graph[l]).contains(r) ==> live[l].contains(r)
    } by {
        assert(labels.contains(l));
        let a = choose|a: int| 0 <= a < labels.len() && labels[a] == l;
        assert(encoding.instrs@[a] == graph[labels[a]]);
        assert(live[labels[a]] == row_set(universe, x[a]));
        assert(stable(succ, gen, kill, x, a));
        assert(x[a].len() == universe.len());
        assert forall|r: Register| #[trigger] uses_model(graph[l]).contains(r) implies live[l].contains(
            r,
        ) by {
            let q = choose|q: int| 0 <= q < uses_model(graph[l]).len() && uses_model(graph[l])[q] == r;
            assert(universe.contains(encoding.uses@[a]@[q]));
            let j = choose|j: int| 0 <= j < universe.len() && universe[j] == r;
            assert(gen[a][j]);
            assert(x[a][j]);
        }
        assert forall|k: int, r: Register|
            0 <= k < graph[l].successors().len() && #[trigger] live[graph[l].successors()[k]].contains(
                r,
            ) && !defs_model(graph[l]).contains(r) implies live[l].contains(r) by {
            let s = encoding.succ_idx@[a]@[k];
            assert(succ[a][k] == s);
            assert(s < labels.len());
            assert(labels[s as int] == graph[l].successors()[k]);
            assert(live[labels[s as int]] == row_set(universe, x[s as int]));
            let j = choose|j: int| 0 <= j < universe.len() && universe[j] == r && x[s as int][j];
            assert(!kill[a][j]);
            assert(x[succ[a][k] as int][j]);
            assert(flows(succ, x, a, j));
            assert(x[a][j]);
        }
    }
}

/// The least solution on bit rows, read as sets of registers, is within
/// every solution of the liveness inequations.
pub proof fn lemma_least(
    graph: Map<Label, Instr>,
    labels: Seq<Label>,
    encoding: Encoding,
    universe: Seq<Register>,
    gen: Seq<Seq<bool>>,
    kill: Seq<Seq<bool>>,
    x: Seq<Seq<bool>>,
    other: Map<Label, Set<Register>>,
)
    requires
        encoding.encodes(graph, labels),
        rows_fit(encoding, universe, gen, kill),
        shaped(x, labels.len(), universe.len()),
        least(edges(encoding.succ_idx), gen, kill, x, universe.len()),
        solves(graph, other),
    ensures
        forall|a: int, j: int|
            0 <= a < labels.len() && 0 <= j < universe.len() && #[trigger] x[a][j]
                ==> other[labels[a]].contains(universe[j]),
{
    let succ = edges(encoding.succ_idx);
    let n = labels.len();
    let m = universe.len();
    let y = Seq::new(n, |a: int| Seq::new(m, |j: int| other[labels[a]].contains(universe[j])));
    assert(shaped(y, n, m));
    assert forall|a: int| 0 <= a < y.len() implies #[trigger] stable(succ, gen, kill, y, a) by {
        let l = labels[a];
        assert(labels.contains(l));
        assert(graph.contains_key(l));
        assert(encoding.instrs@[a] == graph[labels[a]]);
        assert forall|j: int| 0 <= j < y[a].len() implies (gen[a][j] || (!kill[a][j] && flows(
            succ,
            y,
            a,
            j,
        )) ==> #[trigger] y[a][j]) by {
            if gen[a][j] {
                assert(uses_model(graph[l]).contains(universe[j]));
            } else if !kill[a][j] && flows(succ, y, a, j) {
                let k = choose|k: int| 0 <= k < succ[a].len() && #[trigger] y[succ[a][k] as int][j];
                let s = encoding.succ_idx@[a]@[k];
                assert(succ[a][k] == s);
                assert(labels[s as int] == graph[l].successors()[k]);
                assert(other[graph[l].successors()[k]].contains(universe[j]));
            }
        }
    }
    assert(solution(succ, gen, kill, y));
    assert forall|a: int, j: int|
        0 <= a < labels.len() && 0 <= j < universe.len() && #[trigger] x[a][j] implies other[labels[a]].contains(
        universe[j],
    ) by {
        assert(x[a].len() == m);
        assert(y[a][j]);
    }
}

/// Whether `i` is among `positions`.
fn member_position(positions: &Vec<usize>, i: usize) -> (r: bool)
    ensures
        r == positions@.contains(i),
{
    let mut k: usize = 0;
    while k < positions.len()
        invariant
            k <= positions@.len(),
            forall|q: int| 0 <= q < k ==> positions@[q] != i,
        decreases positions@.len() - k,
    {
        if positions[k] == i {
            return true;
        }
        k = k + 1;
    }
    false
}

/// The labels of the nodes that have node `i` among their successors.
fn preds(succ_idx: &Vec<Vec<usize>>, labels: &Vec<Label>, i: usize) -> (r: Vec<Label>)
    requires
        labels@.no_duplicates(),
        succ_idx@.len() == labels@.len(),
    ensures
        forall|l: Label|
            r@.contains(l) <==> exists|p: int|
                0 <= p < labels@.len() && labels@[p] == l && (#[trigger] succ_idx@[p])@.contains(i),
{
    let mut out: Vec<Label> = Vec::new();
    let mut p: usize = 0;
    while p < labels.len()
        invariant
            p <= labels@.len(),
            succ_idx@.len() == labels@.len(),
            forall|l: Label|
                out@.contains(l) <==> exists|q: int|
                    0 <= q < p && labels@[q] == l && (#[trigger] succ_idx@[q])@.contains(i),
        decreases labels@.len() - p,
    {
        let ghost before = out@;
        if member_position(&succ_idx[p], i) {
            out.push(labels[p]);
            proof {
                assert forall|l: Label| out@.contains(l) <==> exists|q: int|
                    0 <= q < p + 1 && labels@[q] == l && (#[trigger] succ_idx@[q])@.contains(i) by {
                    if out@.contains(l) {
                        let a = choose|a: int| 0 <= a < out@.len() && out@[a] == l;
                        if a < before.len() {
                            assert(before.contains(before[a]));
                        } else {
                            assert(succ_idx@[p as int]@.contains(i));
                        }
                    }
                    if exists|q: int|
                        0 <= q < p + 1 && labels@[q] == l && (#[trigger] succ_idx@[q])@.contains(i) {
                        let q = choose|q: int|
                            0 <= q < p + 1 && labels@[q] == l && (#[trigger] succ_idx@[q])@.contains(
                                i,
                            );
                        if q < p {
                            assert(before.contains(l));
                            let a = choose|a: int| 0 <= a < before.len() && before[a] == l;
                            assert(out@[a] == l);
                        } else {
                            assert(out@[before.len() as int] == l);
                        }
                    }
                }
            }
        } else {
            proof {
                assert forall|l: Label| out@.contains(l) <==> exists|q: int|
                    0 <= q < p + 1 && labels@[q] == l && (#[trigger] succ_idx@[q])@.contains(i) by {
                    if exists|q: int|
                        0 <= q < p + 1 && labels@[q] == l && (#[trigger] succ_idx@[q])@.contains(i) {
                        let q = choose|q: int|
                            0 <= q < p + 1 && labels@[q] == l && (#[trigger] succ_idx@[q])@.contains(
                                i,
                            );
                        assert(q < p);
                    }
                }
            }
        }
        p = p + 1;
    }
    out
}

/// What the analysis finds for the node at position `a`.
pub open spec fn info_at(
    graph: Map<Label, Instr>,
    labels: Seq<Label>,
    encoding: Encoding,
    universe: Seq<Register>,
    x: Seq<Seq<bool>>,
    a: int,
) -> InfoView {
    InfoView {
        instr: graph[labels[a]],
        succ: graph[labels[a]].successors(),
        pred: predecessors(graph, labels[a]),
        defs: defs_model(graph[labels[a]]),
        uses: uses_model(graph[labels[a]]),
        ins: row_set(universe, x[a]),
        outs: Set::new(
            |r: Register|
                exists|j: int|
                    0 <= j < universe.len() && universe[j] == r && flows(
                        edges(encoding.succ_idx),
                        x,
                        a,
                        j,
                    ),
        ),
    }
}

/// The predecessors found on positions are the predecessors in the graph.
pub proof fn lemma_preds(
    graph: Map<Label, Instr>,
    labels: Seq<Label>,
    encoding: Encoding,
    found: Seq<Label>,
    i: usize,
)
    requires
        encoding.encodes(graph, labels),
        i < labels.len(),
        forall|l: Label|
            found.contains(l) <==> exists|p: int|
                0 <= p < labels.len() && labels[p] == l && (#[trigger] encoding.succ_idx@[p])@.contains(
                    i,
                ),
    ensures
        found.to_set() == predecessors(graph, labels[i as int]),
{
    assert forall|l: Label| found.to_set().contains(l) <==> predecessors(graph, labels[i as int]).contains(
        l,
    ) by {
        if found.contains(l) {
            let p = choose|p: int|
                0 <= p < labels.len() && labels[p] == l && (#[trigger] encoding.succ_idx@[p])@.contains(
                    i,
                );
            let k = choose|k: int|
                0 <= k < encoding.succ_idx@[p]@.len() && encoding.succ_idx@[p]@[k] == i;
            assert(encoding.instrs@[p] == graph[labels[p]]);
            assert(labels[encoding.succ_idx@[p]@[k] as int] == encoding.succs@[p]@[k]);
            assert(labels.contains(labels[p]));
            assert(graph[l].successors()[k] == labels[i as int]);
        }
        if predecessors(graph, labels[i as int]).contains(l) {
            assert(labels.contains(l));
            let p = choose|p: int| 0 <= p < labels.len() && labels[p] == l;
            let k = choose|k: int|
                0 <= k < graph[l].successors().len() && graph[l].successors()[k] == labels[i as int];
            assert(encoding.instrs@[p] == graph[labels[p]]);
            let s = encoding.succ_idx@[p]@[k];
            assert(edges(encoding.succ_idx)[p][k] == s);
            assert(labels[s as int] == encoding.succs@[p]@[k]);
            assert(s == i);
            assert(encoding.succ_idx@[p]@.contains(i));
        }
    }
    assert(found.to_set() =~= predecessors(graph, labels[i as int]));
}

/// The liveness of `graph`: the least solution of its liveness inequations.
/// It fails where control may reach a label that has no instruction, and
/// only there.
pub fn liveness_graph(graph: &Graph) -> (r: LivenessResult<LivenessGraph>)
    ensures
        r is Ok <==> closed(graph@),
        match r {
            Ok(result) => analysed(graph@, result@),
            Err(LivenessError::UnknownLabel(label)) => !graph@.contains_key(label) && exists|
                l: Label,
            |
                graph@.contains_key(l) && graph@[l].successors().contains(label),
        },
{
    let labels = graph.instrs.labels();
    let encoding = encode(graph, &labels)?;
    let universe = collect(&encoding.uses);
    let m = universe.len();
    let n = labels.len();
    let gen = rows(&encoding.uses, &universe);
    let kill = rows(&encoding.defs, &universe);
    assert(rows_fit(encoding, universe@, matrix(gen), matrix(kill)));
    let ins = solve(&encoding.succ_idx, &gen, &kill, m);
    let mut infos: LabelMap<LivenessInfo> = LabelMap::new();
    let mut i: usize = 0;
    while i < n
        invariant
            i <= n,
            n == labels@.len(),
            m == universe@.len(),
            encoding.encodes(graph@, labels@),
            rows_fit(encoding, universe@, matrix(gen), matrix(kill)),
            shaped(matrix(ins), n as nat, m as nat),
            forall|a: int|
                0 <= a < i ==> infos@.contains_key(#[trigger] labels@[a]) && infos@[labels@[a]]@
                    == info_at(graph@, labels@, encoding, universe@, matrix(ins), a),
            forall|l: Label| #[trigger]
                infos@.contains_key(l) ==> exists|a: int| 0 <= a < i && labels@[a] == l,
        decreases n - i,
    {
        let label = labels[i];
        let instr = encoding.instrs[i];
        assert(instr == graph@[labels@[i as int]]);
        assert(matrix(ins)[i as int].len() == m);
        let live_in = select(&universe, &ins[i]);
        let out_bits = out_row(&encoding.succ_idx, &ins, i, m);
        let live_out = select(&universe, &out_bits);
        let pred = preds(&encoding.succ_idx, &labels, i);
        let (defs, uses) = def_use(&instr);
        let targets = succ(&instr);
        let info = LivenessInfo::new(instr, targets, pred, defs, uses, live_in, live_out);
        proof {
            lemma_preds(graph@, labels@, encoding, pred@, i);
            let expected = info_at(graph@, labels@, encoding, universe@, matrix(ins), i as int);
            assert(info@.outs =~= expected.outs);
            assert(info@ == expected);
            assert forall|a: int| 0 <= a < i implies labels@[a] != label by {}
        }
        infos.insert_at_label(label, info);
        i = i + 1;
    }
    let result = LivenessGraph { infos };
    proof {
        let x = matrix(ins);
        let live = ins_of(result@);
        assert(result@.dom() =~= graph@.dom()) by {
            assert forall|l: Label| result@.dom().contains(l) <==> graph@.dom().contains(l) by {
                if graph@.dom().contains(l) {
                    assert(labels@.contains(l));
                    let a = choose|a: int| 0 <= a < labels@.len() && labels@[a] == l;
                    assert(infos@.contains_key(labels@[a]));
                }
                if result@.dom().contains(l) {
                    let a = choose|a: int| 0 <= a < n && labels@[a] == l;
                    assert(labels@.contains(labels@[a]));
                }
            }
        }
        assert(decodes(labels@, universe@, x, live)) by {
            assert forall|a: int| 0 <= a < labels@.len() implies live[#[trigger] labels@[a]]
                == row_set(universe@, x[a]) by {
                assert(infos@.contains_key(labels@[a]));
            }
        }
        lemma_solves(graph@, labels@, encoding, universe@, matrix(gen), matrix(kill), x, live);
        assert forall|other: Map<Label, Set<Register>>| #[trigger]
            solves(graph@, other) implies forall|l: Label, r: Register|
            graph@.contains_key(l) && #[trigger] result@[l].ins.contains(r) ==> other[l].contains(
                r,
            ) by {
            lemma_least(graph@, labels@, encoding, universe@, matrix(gen), matrix(kill), x, other);
            assert forall|l: Label, r: Register|
                graph@.contains_key(l) && #[trigger] result@[l].ins.contains(r) implies other[l].contains(
                r,
            ) by {
                assert(labels@.contains(l));
                let a = choose|a: int| 0 <= a < labels@.len() && labels@[a] == l;
                assert(infos@.contains_key(labels@[a]));
                let j = choose|j: int| 0 <= j < universe@.len() && universe@[j] == r && x[a][j];
                assert(x[a][j]);
            }
        }
        assert forall|l: Label| #[trigger] graph@.contains_key(l) implies {
            &&& result@[l].instr == graph@[l]
            &&& result@[l].succ == graph@[l].successors()
            &&& result@[l].pred == predecessors(graph@, l)
            &&& result@[l].defs == defs_model(graph@[l])
            &&& result@[l].uses == uses_model(graph@[l])
            &&& result@[l].outs == live_out(graph@, live, l)
        } by {
            assert(labels@.contains(l));
            let a = choose|a: int| 0 <= a < labels@.len() && labels@[a] == l;
            assert(infos@.contains_key(labels@[a]));
            assert(encoding.instrs@[a] == graph@[labels@[a]]);
            let succ_idx = edges(encoding.succ_idx);
            assert forall|r: Register| result@[l].outs.contains(r) <==> live_out(
                graph@,
                live,
                l,
            ).contains(r) by {
                if result@[l].outs.contains(r) {
                    let j = choose|j: int|
                        0 <= j < universe@.len() && universe@[j] == r && flows(succ_idx, x, a, j);
                    let k = choose|k: int|
                        0 <= k < succ_idx[a].len() && #[trigger] x[succ_idx[a][k] as int][j];
                    let s = encoding.succ_idx@[a]@[k];
                    assert(succ_idx[a][k] == s);
                    assert(labels@[s as int] == graph@[l].successors()[k]);
                    assert(infos@.contains_key(labels@[s as int]));
                    assert(live[graph@[l].successors()[k]].contains(r));
                }
                if live_out(graph@, live, l).contains(r) {
                    let k = choose|k: int|
                        0 <= k < graph@[l].successors().len() && #[trigger] live[graph@[l].successors()[k]].contains(
                            r,
                        );
                    let s = encoding.succ_idx@[a]@[k];
                    assert(succ_idx[a][k] == s);
                    assert(s < n);
                    assert(labels@[s as int] == graph@[l].successors()[k]);
                    assert(infos@.contains_key(labels@[s as int]));
                    let j = choose|j: int|
                        0 <= j < universe@.len() && universe@[j] == r && x[s as int][j];
                    assert(x[succ_idx[a][k] as int][j]);
                    assert(flows(succ_idx, x, a, j));
                }
            }
            assert(result@[l].outs =~= live_out(graph@, live, l));
        }
    }
    Ok(result)
}

} // verus!

pub mod structure;

use crate::ertl::structure::register::Register;
use crate::ertl::structure::{Instr, Label, Mbinop};
use crate::interference::structure::InterferenceGraph;
use crate::liveness::structure::{InfoView, LivenessGraph, LivenessInfo};
use vstd::prelude::*;

verus! {

/// Building the graph cannot fail; the type is kept for the pipeline's sake.
#[derive(Debug, Clone, Copy, PartialEq, Eq, Structural)]
pub enum InterferenceError {
    Unreachable,
}

pub type InterferenceResult<T> = Result<T, InterferenceError>;

/// `instr` is `mov rs, rd`.
pub open spec fn is_move(instr: Instr, rs: Register, rd: Register) -> bool {
    match instr {
        Instr::EMBinop(op, s, d, _) => op == Mbinop::MMov && s == rs && d == rd,
        _ => false,
    }
}

/// `instr` is a move out of `rs`.
pub open spec fn moves_from(instr: Instr, rs: Register) -> bool {
    match instr {
        Instr::EMBinop(op, s, _, _) => op == Mbinop::MMov && s == rs,
        _ => false,
    }
}

/// The instruction of `info` is a move between `a` and `b`, which differ.
pub open spec fn wants_at(info: InfoView, a: Register, b: Register) -> bool {
    a != b && (is_move(info.instr, a, b) || is_move(info.instr, b, a))
}

/// The instruction of `info` writes `d` while `o`, another register, is live
/// after it; but a move does not set its source against its destination.
pub open spec fn clash_at(info: InfoView, d: Register, o: Register) -> bool {
    info.defs.contains(d) && info.outs.contains(o) && o != d && !moves_from(info.instr, o)
}

/// `instr` is a move between two different registers, one of which is `r`.
pub open spec fn moved(instr: Instr, r: Register) -> bool {
    match instr {
        Instr::EMBinop(op, s, d, _) => op == Mbinop::MMov && s != d && (s == r || d == r),
        _ => false,
    }
}

/// `r` is written, read or live after the instruction of `info`, or moved
/// by it.
pub open spec fn appears_at(info: InfoView, r: Register) -> bool {
    info.defs.contains(r) || info.uses.contains(r) || info.outs.contains(r) || moved(
        info.instr,
        r,
    )
}

/// The `q`-th written register and the `k`-th live register clash, and `a`
/// and `b` are those two.
pub open spec fn hit(
    defs: Seq<Register>,
    outs: Seq<Register>,
    spared: Option<Register>,
    q: int,
    k: int,
    a: Register,
    b: Register,
) -> bool {
    &&& 0 <= q < defs.len()
    &&& 0 <= k < outs.len()
    &&& outs[k] != defs[q]
    &&& spared != Some(outs[k])
    &&& ((a == defs[q] && b == outs[k]) || (a == outs[k] && b == defs[q]))
}

/// Some move of the function is between `a` and `b`.
pub open spec fn wants(infos: Map<Label, InfoView>, a: Register, b: Register) -> bool {
    exists|l: Label| infos.contains_key(l) && #[trigger] wants_at(infos[l], a, b)
}

/// At some instruction one of `a` and `b` is written while the other is live.
pub open spec fn clashes(infos: Map<Label, InfoView>, a: Register, b: Register) -> bool {
    exists|l: Label|
        #![trigger infos[l]]
        infos.contains_key(l) && (clash_at(infos[l], a, b) || clash_at(infos[l], b, a))
}

/// `r` appears somewhere in the function.
pub open spec fn appears(infos: Map<Label, InfoView>, r: Register) -> bool {
    exists|l: Label| infos.contains_key(l) && #[trigger] appears_at(infos[l], r)
}

/// `graph` is the interference graph of the function analysed in `infos`:
/// its vertices are the registers that appear; two registers interfere where
/// they clash; and they prefer each other where a move joins them and they
/// do not interfere.
pub open spec fn built(infos: Map<Label, InfoView>, graph: InterferenceGraph) -> bool {
    &&& graph.wf()
    &&& forall|r: Register| graph.has(r) <==> appears(infos, r)
    &&& forall|a: Register, b: Register| graph.interferes(a, b) <==> clashes(infos, a, b)
    &&& forall|a: Register, b: Register|
        graph.prefers(a, b) <==> wants(infos, a, b) && !clashes(infos, a, b)
}

/// Makes each of `registers` a vertex.
fn add_vertices(graph: &mut InterferenceGraph, registers: &Vec<Register>)
    requires
        old(graph).wf(),
    ensures
        final(graph).wf(),
        forall|r: Register| final(graph).has(r) <==> old(graph).has(r) || registers@.contains(r),
        final(graph)@.prefs == old(graph)@.prefs,
        final(graph)@.intfs == old(graph)@.intfs,
{
    let mut i: usize = 0;
    while i < registers.len()
        invariant
            i <= registers@.len(),
            graph.wf(),
            forall|r: Register|
                graph.has(r) <==> old(graph).has(r) || exists|k: int|
                    0 <= k < i && registers@[k] == r,
            graph@.prefs == old(graph)@.prefs,
            graph@.intfs == old(graph)@.intfs,
        decreases registers@.len() - i,
    {
        let ghost before = *graph;
        graph.vertex(registers[i]);
        proof {
            assert forall|r: Register| graph.has(r) <==> old(graph).has(r) || exists|k: int|
                0 <= k < i + 1 && registers@[k] == r by {
                assert(graph@.vertices.contains(r) <==> before@.vertices.contains(r) || r
                    == registers@[i as int]);
                if before.has(r) && !old(graph).has(r) {
                    let k = choose|k: int| 0 <= k < i && registers@[k] == r;
                    assert(0 <= k < i + 1 && registers@[k] == r);
                }
                if exists|k: int| 0 <= k < i + 1 && registers@[k] == r {
                    let k = choose|k: int| 0 <= k < i + 1 && registers@[k] == r;
                    if k < i {
                        assert(before.has(r));
                    }
                }
            }
        }
        i = i + 1;
    }
}

/// Sets `d` against every register of `outs` but `d` itself and `spared`.
fn add_clashes_of(
    graph: &mut InterferenceGraph,
    d: Register,
    outs: &Vec<Register>,
    spared: Option<Register>,
)
    requires
        old(graph).wf(),
        old(graph).has(d),
        forall|k: int| 0 <= k < outs@.len() ==> old(graph).has(#[trigger] outs@[k]),
    ensures
        final(graph).wf(),
        final(graph)@.vertices == old(graph)@.vertices,
        final(graph)@.prefs == old(graph)@.prefs,
        forall|a: Register, b: Register|
            final(graph).interferes(a, b) <==> old(graph).interferes(a, b) || (exists|k: int|
                0 <= k < outs@.len() && outs@[k] != d && spared != Some(#[trigger] outs@[k]) && ((a
                    == d && b == outs@[k]) || (a == outs@[k] && b == d))),
{
    let mut y: usize = 0;
    while y < outs.len()
        invariant
            y <= outs@.len(),
            graph.wf(),
            graph@.vertices == old(graph)@.vertices,
            graph@.prefs == old(graph)@.prefs,
            old(graph).has(d),
            forall|k: int| 0 <= k < outs@.len() ==> old(graph).has(#[trigger] outs@[k]),
            forall|a: Register, b: Register|
                graph.interferes(a, b) <==> old(graph).interferes(a, b) || (exists|k: int|
                    0 <= k < y && outs@[k] != d && spared != Some(#[trigger] outs@[k]) && ((a == d
                        && b == outs@[k]) || (a == outs@[k] && b == d))),
        decreases outs@.len() - y,
    {
        let o = outs[y];
        let ghost before = *graph;
        let skip = o == d || match spared {
            Some(register) => register == o,
            None => false,
        };
        if !skip {
            graph.intf(d, o);
            proof {
                assert(old(graph)@.vertices.contains(d));
                assert(old(graph).has(outs@[y as int]));
                assert(old(graph)@.vertices.contains(o));
                assert(graph@.vertices =~= old(graph)@.vertices);
            }
        }
        proof {
            assert forall|a: Register, b: Register|
                graph.interferes(a, b) <==> old(graph).interferes(a, b) || (exists|k: int|
                    0 <= k < y + 1 && outs@[k] != d && spared != Some(#[trigger] outs@[k]) && ((a
                        == d && b == outs@[k]) || (a == outs@[k] && b == d))) by {
                assert(graph@.intfs.contains((a, b)) <==> graph.interferes(a, b));
                assert(before@.intfs.contains((a, b)) <==> before.interferes(a, b));
                if before.interferes(a, b) && !old(graph).interferes(a, b) {
                    let k = choose|k: int|
                        0 <= k < y && outs@[k] != d && spared != Some(#[trigger] outs@[k]) && ((a
                            == d && b == outs@[k]) || (a == outs@[k] && b == d));
                    assert(0 <= k < y + 1);
                }
                if exists|k: int|
                    0 <= k < y + 1 && outs@[k] != d && spared != Some(#[trigger] outs@[k]) && ((a
                        == d && b == outs@[k]) || (a == outs@[k] && b == d)) {
                    let k = choose|k: int|
                        0 <= k < y + 1 && outs@[k] != d && spared != Some(#[trigger] outs@[k]) && ((
                        a == d && b == outs@[k]) || (a == outs@[k] && b == d));
                    if k < y {
                        assert(before.interferes(a, b));
                    }
                }
                if !skip && ((a == d && b == o) || (a == o && b == d)) {
                    assert(outs@[y as int] == o);
                }
            }
        }
        y = y + 1;
    }
}

/// The source of `instr`, if it is a move.
fn move_source(instr: &Instr) -> (r: Option<Register>)
    ensures
        forall|o: Register| moves_from(*instr, o) <==> r == Some(o),
{
    match instr {
        Instr::EMBinop(Mbinop::MMov, rs, _, _) => Some(*rs),
        _ => None,
    }
}

/// Adds to `graph` what the instruction of `info` contributes: the registers
/// that appear at it, the preference of a move, and its clashes.
fn absorb(graph: &mut InterferenceGraph, info: &LivenessInfo)
    requires
        old(graph).wf(),
    ensures
        final(graph).wf(),
        forall|r: Register| final(graph).has(r) <==> old(graph).has(r) || appears_at(info@, r),
        forall|a: Register, b: Register|
            final(graph).prefers(a, b) <==> old(graph).prefers(a, b) || wants_at(info@, a, b),
        forall|a: Register, b: Register|
            final(graph).interferes(a, b) <==> old(graph).interferes(a, b) || clash_at(info@, a, b)
                || clash_at(info@, b, a),
{
    add_vertices(graph, &info.defs);
    add_vertices(graph, &info.uses);
    add_vertices(graph, &info.outs);
    let ghost with_vertices = *graph;
    match &info.instr {
        Instr::EMBinop(Mbinop::MMov, rs, rd, _) => {
            if *rs != *rd {
                graph.pref(*rs, *rd);
            }
        },
        _ => {},
    }
    let ghost with_prefs = *graph;
    proof {
        assert forall|a: Register, b: Register|
            with_prefs.prefers(a, b) <==> old(graph).prefers(a, b) || wants_at(info@, a, b) by {
            assert(with_prefs@.prefs.contains((a, b)) <==> with_prefs.prefers(a, b));
            assert(with_vertices@.prefs.contains((a, b)) <==> with_vertices.prefers(a, b));
            assert(old(graph)@.prefs.contains((a, b)) <==> old(graph).prefers(a, b));
        }
        assert forall|r: Register|
            with_prefs.has(r) <==> old(graph).has(r) || appears_at(info@, r) by {
            assert(with_prefs@.vertices.contains(r) <==> with_prefs.has(r));
            assert(with_vertices@.vertices.contains(r) <==> with_vertices.has(r));
        }
        assert forall|a: Register, b: Register|
            #![trigger with_prefs.interferes(a, b)]
            with_prefs.interferes(a, b) <==> old(graph).interferes(a, b) by {
            assert(with_prefs@.intfs.contains((a, b)) <==> with_prefs.interferes(a, b));
            assert(with_vertices@.intfs.contains((a, b)) <==> with_vertices.interferes(a, b));
            assert(old(graph)@.intfs.contains((a, b)) <==> old(graph).interferes(a, b));
        }
        assert forall|k: int| 0 <= k < info.defs@.len() implies with_prefs.has(
            #[trigger] info.defs@[k],
        ) by {
            assert(info.defs@.contains(info.defs@[k]));
        }
        assert forall|k: int| 0 <= k < info.outs@.len() implies with_prefs.has(
            #[trigger] info.outs@[k],
        ) by {
            assert(info.outs@.contains(info.outs@[k]));
        }
    }
    let spared = move_source(&info.instr);
    let mut x: usize = 0;
    while x < info.defs.len()
        invariant
            x <= info.defs@.len(),
            graph.wf(),
            graph@.vertices == with_prefs@.vertices,
            graph@.prefs == with_prefs@.prefs,
            forall|k: int| 0 <= k < info.defs@.len() ==> with_prefs.has(#[trigger] info.defs@[k]),
            forall|k: int| 0 <= k < info.outs@.len() ==> with_prefs.has(#[trigger] info.outs@[k]),
            forall|a: Register, b: Register|
                #![trigger graph.interferes(a, b)]
                graph.interferes(a, b) <==> with_prefs.interferes(a, b) || (exists|
                    q: int,
                    k: int,
                |
                    q < x && #[trigger] hit(info.defs@, info.outs@, spared, q, k, a, b)),
        decreases info.defs@.len() - x,
    {
        let d = info.defs[x];
        let ghost before = *graph;
        proof {
            assert(with_prefs.has(info.defs@[x as int]));
            assert(with_prefs@.vertices.contains(d));
            assert(graph.has(d));
            assert forall|k: int| 0 <= k < info.outs@.len() implies graph.has(
                #[trigger] info.outs@[k],
            ) by {
                assert(with_prefs.has(info.outs@[k]));
                assert(with_prefs@.vertices.contains(info.outs@[k]));
            }
        }
        add_clashes_of(graph, d, &info.outs, spared);
        proof {
            assert forall|a: Register, b: Register|
                #![trigger graph.interferes(a, b)]
                graph.interferes(a, b) <==> with_prefs.interferes(a, b) || (exists|q: int, k: int|
                    q < x + 1 && #[trigger] hit(info.defs@, info.outs@, spared, q, k, a, b)) by {
                assert(before.interferes(a, b) <==> with_prefs.interferes(a, b) || (exists|
                    q: int,
                    k: int,
                |
                    q < x && #[trigger] hit(info.defs@, info.outs@, spared, q, k, a, b)));
                if before.interferes(a, b) && !with_prefs.interferes(a, b) {
                    let (q, k) = choose|q: int, k: int|
                        q < x && #[trigger] hit(info.defs@, info.outs@, spared, q, k, a, b);
                    assert(q < x + 1 && hit(info.defs@, info.outs@, spared, q, k, a, b));
                }
                if graph.interferes(a, b) && !before.interferes(a, b) {
                    let k = choose|k: int|
                        0 <= k < info.outs@.len() && info.outs@[k] != d && spared != Some(
                            #[trigger] info.outs@[k],
                        ) && ((a == d && b == info.outs@[k]) || (a == info.outs@[k] && b == d));
                    assert(hit(info.defs@, info.outs@, spared, x as int, k, a, b));
                }
                if exists|q: int, k: int|
                    q < x + 1 && #[trigger] hit(info.defs@, info.outs@, spared, q, k, a, b) {
                    let (q, k) = choose|q: int, k: int|
                        q < x + 1 && #[trigger] hit(info.defs@, info.outs@, spared, q, k, a, b);
                    if q < x {
                        assert(before.interferes(a, b));
                    } else {
                        assert(q == x);
                        assert(info.outs@[k] != d && spared != Some(info.outs@[k]));
                        assert(graph.interferes(a, b));
                    }
                }
            }
        }
        x = x + 1;
    }
    proof {
        assert forall|r: Register| graph.has(r) <==> old(graph).has(r) || appears_at(
            info@,
            r,
        ) by {
            assert(graph@.vertices.contains(r) <==> graph.has(r));
            assert(with_prefs@.vertices.contains(r) <==> with_prefs.has(r));
        }
        assert forall|a: Register, b: Register|
            graph.prefers(a, b) <==> old(graph).prefers(a, b) || wants_at(info@, a, b) by {
            assert(graph@.prefs.contains((a, b)) <==> graph.prefers(a, b));
            assert(with_prefs@.prefs.contains((a, b)) <==> with_prefs.prefers(a, b));
        }
        assert forall|a: Register, b: Register|
            graph.interferes(a, b) <==> old(graph).interferes(a, b) || clash_at(info@, a, b)
                || clash_at(info@, b, a) by {
            assert(graph.interferes(a, b) <==> with_prefs.interferes(a, b) || (exists|
                q: int,
                k: int,
            |
                q < x && #[trigger] hit(info.defs@, info.outs@, spared, q, k, a, b)));
            assert(with_prefs.interferes(a, b) <==> old(graph).interferes(a, b));
            if clash_at(info@, a, b) {
                let q = choose|q: int| 0 <= q < info.defs@.len() && info.defs@[q] == a;
                assert(info.outs@.contains(b));
                let k = choose|k: int| 0 <= k < info.outs@.len() && info.outs@[k] == b;
                assert(hit(info.defs@, info.outs@, spared, q, k, a, b));
            }
            if clash_at(info@, b, a) {
                let q = choose|q: int| 0 <= q < info.defs@.len() && info.defs@[q] == b;
                assert(info.outs@.contains(a));
                let k = choose|k: int| 0 <= k < info.outs@.len() && info.outs@[k] == a;
                assert(hit(info.defs@, info.outs@, spared, q, k, a, b));
            }
            if graph.interferes(a, b) && !old(graph).interferes(a, b) {
                let (q, k) = choose|q: int, k: int|
                    q < info.defs@.len() && #[trigger] hit(
                        info.defs@,
                        info.outs@,
                        spared,
                        q,
                        k,
                        a,
                        b,
                    );
                assert(info.outs@.contains(info.outs@[k]));
                assert(info.defs@.contains(info.defs@[q]));
            }
        }
    }
}

/// The interference graph of the function whose liveness is `graph`. It
/// always succeeds.
pub fn interference_graph(graph: &LivenessGraph) -> (r: InterferenceResult<InterferenceGraph>)
    ensures
        r is Ok,
        built(graph@, r->Ok_0),
{
    let labels = graph.infos.labels();
    let mut result = InterferenceGraph::new();
    let mut i: usize = 0;
    proof {
        assert forall|r: Register| !result.has(r) by {
            assert(result@.vertices.contains(r) <==> result.has(r));
        }
        assert forall|a: Register, b: Register| !result.prefers(a, b) && !result.interferes(
            a,
            b,
        ) by {
            assert(result@.prefs.contains((a, b)) <==> result.prefers(a, b));
            assert(result@.intfs.contains((a, b)) <==> result.interferes(a, b));
        }
    }
    while i < labels.len()
        invariant
            i <= labels@.len(),
            crate::utils::lists(labels@, graph.infos@.dom()),
            result.wf(),
            forall|r: Register|
                result.has(r) <==> exists|k: int|
                    0 <= k < i && appears_at(#[trigger] graph@[labels@[k]], r),
            forall|a: Register, b: Register|
                result.prefers(a, b) <==> exists|k: int|
                    0 <= k < i && wants_at(#[trigger] graph@[labels@[k]], a, b),
            forall|a: Register, b: Register|
                result.interferes(a, b) <==> exists|k: int|
                    #![trigger graph@[labels@[k]]]
                    0 <= k < i && (clash_at(graph@[labels@[k]], a, b) || clash_at(
                        graph@[labels@[k]],
                        b,
                        a,
                    )),
        decreases labels@.len() - i,
    {
        let label = labels[i];
        assert(labels@.contains(labels@[i as int]));
        let ghost before = result;
        match graph.infos.get(label) {
            Some(info) => {
                assert(info@ == graph@[labels@[i as int]]);
                absorb(&mut result, info);
                proof {
                    assert forall|r: Register|
                        result.has(r) <==> exists|k: int|
                            0 <= k < i + 1 && appears_at(#[trigger] graph@[labels@[k]], r) by {
                        if before.has(r) {
                            let k = choose|k: int|
                                0 <= k < i && appears_at(#[trigger] graph@[labels@[k]], r);
                            assert(0 <= k < i + 1);
                        }
                        if exists|k: int|
                            0 <= k < i + 1 && appears_at(#[trigger] graph@[labels@[k]], r) {
                            let k = choose|k: int|
                                0 <= k < i + 1 && appears_at(#[trigger] graph@[labels@[k]], r);
                            if k < i {
                                assert(before.has(r));
                            }
                        }
                    }
                    assert forall|a: Register, b: Register|
                        result.prefers(a, b) <==> exists|k: int|
                            0 <= k < i + 1 && wants_at(#[trigger] graph@[labels@[k]], a, b) by {
                        if before.prefers(a, b) {
                            let k = choose|k: int|
                                0 <= k < i && wants_at(#[trigger] graph@[labels@[k]], a, b);
                            assert(0 <= k < i + 1);
                        }
                        if exists|k: int|
                            0 <= k < i + 1 && wants_at(#[trigger] graph@[labels@[k]], a, b) {
                            let k = choose|k: int|
                                0 <= k < i + 1 && wants_at(#[trigger] graph@[labels@[k]], a, b);
                            if k < i {
                                assert(before.prefers(a, b));
                            }
                        }
                    }
                    assert forall|a: Register, b: Register|
                        result.interferes(a, b) <==> exists|k: int|
                            #![trigger graph@[labels@[k]]]
                            0 <= k < i + 1 && (clash_at(graph@[labels@[k]], a, b) || clash_at(
                                graph@[labels@[k]],
                                b,
                                a,
                            )) by {
                        if before.interferes(a, b) {
                            let k = choose|k: int|
                                #![trigger graph@[labels@[k]]]
                                0 <= k < i && (clash_at(graph@[labels@[k]], a, b) || clash_at(
                                    graph@[labels@[k]],
                                    b,
                                    a,
                                ));
                            assert(0 <= k < i + 1);
                        }
                        if exists|k: int|
                            #![trigger graph@[labels@[k]]]
                            0 <= k < i + 1 && (clash_at(graph@[labels@[k]], a, b) || clash_at(
                                graph@[labels@[k]],
                                b,
                                a,
                            )) {
                            let k = choose|k: int|
                                #![trigger graph@[labels@[k]]]
                                0 <= k < i + 1 && (clash_at(graph@[labels@[k]], a, b) || clash_at(
                                    graph@[labels@[k]],
                                    b,
                                    a,
                                ));
                            if k < i {
                                assert(before.interferes(a, b));
                            }
                        }
                    }
                }
            },
            None => {
                proof {
                    assert(false);
                }
            },
        }
        i = i + 1;
    }
    let ghost raw = result;
    result.remove_pref_when_intf();
    proof {
        let infos = graph@;
        assert forall|r: Register| result.has(r) <==> appears(infos, r) by {
            assert(result@.vertices.contains(r) <==> result.has(r));
            assert(raw@.vertices.contains(r) <==> raw.has(r));
            if raw.has(r) {
                let k = choose|k: int|
                    0 <= k < labels@.len() && appears_at(#[trigger] graph@[labels@[k]], r);
                assert(labels@.contains(labels@[k]));
                assert(infos.contains_key(labels@[k]));
            }
            if appears(infos, r) {
                let l = choose|l: Label| infos.contains_key(l) && #[trigger] appears_at(infos[l], r);
                assert(labels@.contains(l));
                let k = choose|k: int| 0 <= k < labels@.len() && labels@[k] == l;
                assert(appears_at(graph@[labels@[k]], r));
            }
        }
        assert forall|a: Register, b: Register| raw.interferes(a, b) <==> clashes(
            infos,
            a,
            b,
        ) by {
            if raw.interferes(a, b) {
                let k = choose|k: int|
                    #![trigger graph@[labels@[k]]]
                    0 <= k < labels@.len() && (clash_at(graph@[labels@[k]], a, b) || clash_at(
                        graph@[labels@[k]],
                        b,
                        a,
                    ));
                assert(labels@.contains(labels@[k]));
                assert(infos.contains_key(labels@[k]));
            }
            if clashes(infos, a, b) {
                let l = choose|l: Label|
                    #![trigger infos[l]]
                    infos.contains_key(l) && (clash_at(infos[l], a, b) || clash_at(infos[l], b, a));
                assert(labels@.contains(l));
                let k = choose|k: int| 0 <= k < labels@.len() && labels@[k] == l;
                assert(clash_at(graph@[labels@[k]], a, b) || clash_at(graph@[labels@[k]], b, a));
            }
        }
        assert forall|a: Register, b: Register| raw.prefers(a, b) <==> wants(infos, a, b) by {
            if raw.prefers(a, b) {
                let k = choose|k: int|
                    0 <= k < labels@.len() && wants_at(#[trigger] graph@[labels@[k]], a, b);
                assert(labels@.contains(labels@[k]));
                assert(infos.contains_key(labels@[k]));
            }
            if wants(infos, a, b) {
                let l = choose|l: Label| infos.contains_key(l) && #[trigger] wants_at(infos[l], a, b);
                assert(labels@.contains(l));
                let k = choose|k: int| 0 <= k < labels@.len() && labels@[k] == l;
                assert(wants_at(graph@[labels@[k]], a, b));
            }
        }
        assert forall|a: Register, b: Register| result.interferes(a, b) <==> clashes(
            infos,
            a,
            b,
        ) by {
            assert(result@.intfs.contains((a, b)) <==> result.interferes(a, b));
            assert(raw@.intfs.contains((a, b)) <==> raw.interferes(a, b));
        }
        assert forall|a: Register, b: Register|
            result.prefers(a, b) <==> wants(infos, a, b) && !clashes(infos, a, b) by {
            assert(result@.prefs.contains((a, b)) <==> result.prefers(a, b));
            assert(raw@.prefs.contains((a, b)) <==> raw.prefers(a, b));
            assert(raw@.intfs.contains((a, b)) <==> raw.interferes(a, b));
        }
    }
    Ok(result)
}

} // verus!

pub mod model;
pub mod laws;
pub mod search;
pub mod structure;

use crate::coloring::model::{
    allows, colored_by_rules, finds, finds_none, leads, only_choice, takes, worklist,
};
use crate::coloring::search::{
    candidate, distinct, first_hinted, first_plain, hinted_rule, lemma_arc_exact, plain_rule,
    single, ready, search_any_color, search_one_color, search_one_color_with_preference,
    search_pref_with_known_color, Candidates,
};
use crate::coloring::structure::Coloring;
use crate::ertl::structure::register::{
    allocatable, allocatable_register, PhysicalRegister, Register, ALLOCATABLE_COUNT,
};
use crate::interference::structure::InterferenceGraph;
use crate::liveness::encoding::member;
use crate::ltl::structure::Operand;
use crate::rtl::structure::register::PseudoRegister;
use crate::utils::OrdinalMap;
use vstd::prelude::*;

verus! {

/// Coloring cannot fail; the type is kept for the pipeline's sake.
#[derive(Debug, Clone, Copy, PartialEq, Eq, Structural)]
pub enum ColoringError {
    Unreachable,
}

pub type ColoringResult<T> = Result<T, ColoringError>;

/// Some pseudo-register that is set against `p` has the color `c`.
pub open spec fn blocked(
    graph: InterferenceGraph,
    colors: Map<u32, Operand>,
    p: PseudoRegister,
    c: PhysicalRegister,
) -> bool {
    exists|q: PseudoRegister|
        #![trigger colors[q.index]]
        colors.contains_key(q.index) && colors[q.index] == Operand::Register(c)
            && graph.interferes(Register::Pseudo(q), Register::Pseudo(p))
}

/// `p` may get the color `c`: it may be handed out, `p` is not set against
/// the machine register `c`, and nothing that is set against `p` has it.
pub open spec fn free_for(
    graph: InterferenceGraph,
    colors: Map<u32, Operand>,
    p: PseudoRegister,
    c: PhysicalRegister,
) -> bool {
    allocatable().contains(c) && !graph.interferes(Register::Pseudo(p), Register::Physical(c))
        && !blocked(graph, colors, p, c)
}

/// Some pseudo-register has the frame slot `s`.
pub open spec fn slot_used(colors: Map<u32, Operand>, s: usize) -> bool {
    exists|p: PseudoRegister|
        colors.contains_key(p.index) && #[trigger] colors[p.index] == Operand::Spilled(s)
}

/// The colors are as they should be, whatever is left to do.
pub open spec fn sound(graph: InterferenceGraph, colors: Map<u32, Operand>, count: nat) -> bool {
    &&& forall|p: PseudoRegister|
        colors.contains_key(p.index) && #[trigger] colors[p.index] is Register ==> allocatable().contains(
            colors[p.index]->Register_0,
        ) && !graph.interferes(
            Register::Pseudo(p),
            Register::Physical(colors[p.index]->Register_0),
        )
    &&& forall|p: PseudoRegister, q: PseudoRegister|
        p != q && colors.contains_key(p.index) && colors.contains_key(q.index)
            && #[trigger] colors[p.index] == #[trigger] colors[q.index] && colors[p.index]
            is Register ==> !(graph.interferes(Register::Pseudo(p), Register::Pseudo(q))
            && graph.interferes(Register::Pseudo(q), Register::Pseudo(p)))
    &&& forall|p: PseudoRegister|
        colors.contains_key(p.index) && #[trigger] colors[p.index] is Spilled
            ==> colors[p.index]->Spilled_0 < count
    &&& forall|p: PseudoRegister, q: PseudoRegister|
        p != q && colors.contains_key(p.index) && colors.contains_key(q.index)
            && #[trigger] colors[p.index] is Spilled ==> colors[p.index]
            != #[trigger] colors[q.index]
    &&& forall|s: usize| s < count ==> #[trigger] slot_used(colors, s)
    &&& forall|p: PseudoRegister, c: PhysicalRegister|
        colors.contains_key(p.index) && #[trigger] colors[p.index] is Spilled
            && #[trigger] allocatable().contains(c) ==> graph.interferes(
            Register::Pseudo(p),
            Register::Physical(c),
        ) || blocked(graph, colors, p, c)
}

/// `coloring` colors `graph` properly.
///
/// Every pseudo-register of the graph has a color, and nothing else has
/// one. A register color may be handed out and is not a machine register
/// that its pseudo-register is set against, and two pseudo-registers that
/// are set against each other do not share it. The frame slots are
/// `0..count_on_stack`, one for each spilled pseudo-register. And a
/// pseudo-register is spilled only where each color that may be handed out
/// is a machine register that it is set against, or the color of a
/// pseudo-register that is set against it.
pub open spec fn proper(graph: InterferenceGraph, coloring: Coloring) -> bool {
    &&& forall|p: PseudoRegister| #[trigger]
        coloring.colored(p) <==> graph.has(Register::Pseudo(p))
    &&& sound(graph, coloring.colors@, coloring.count_on_stack as nat)
}

/// The state of the coloring loop is as it should be.
pub open spec fn progress(
    graph: InterferenceGraph,
    todo: Seq<PseudoRegister>,
    candidates: Map<u32, Vec<PhysicalRegister>>,
    colors: Map<u32, Operand>,
    count: nat,
) -> bool {
    &&& forall|i: int, j: int| 0 <= i < j < todo.len() ==> todo[i].index < todo[j].index
    &&& forall|p: PseudoRegister|
        graph.has(Register::Pseudo(p)) <==> todo.contains(p) || colors.contains_key(p.index)
    &&& forall|i: int| 0 <= i < todo.len() ==> !colors.contains_key((#[trigger] todo[i]).index)
    &&& ready(todo, candidates, graph)
    &&& forall|i: int, c: PhysicalRegister|
        0 <= i < todo.len() ==> (#[trigger] candidate(candidates, todo[i], c) <==> free_for(
            graph,
            colors,
            todo[i],
            c,
        ))
    &&& sound(graph, colors, count)
}

/// No register stands twice among those that may be handed out.
pub proof fn lemma_allocatable_distinct()
    ensures
        allocatable().no_duplicates(),
{
    assert forall|i: int, j: int|
        0 <= i < allocatable().len() && 0 <= j < allocatable().len() && i != j implies allocatable()[i]
        != allocatable()[j] by {
        assert(allocatable().len() == 12);
    }
}

/// The candidates of each pseudo-register of `graph` at the start: the
/// registers that may be handed out, but for the machine registers that the
/// pseudo-register is set against.
pub fn init_allocatable(graph: &InterferenceGraph) -> (r: ColoringResult<Candidates>)
    requires
        graph.wf(),
    ensures
        r is Ok,
        forall|p: PseudoRegister|
            r->Ok_0@.contains_key(p.index) <==> graph.has(Register::Pseudo(p)),
        forall|p: PseudoRegister, c: PhysicalRegister|
            graph.has(Register::Pseudo(p)) ==> (#[trigger] candidate(r->Ok_0@, p, c)
                <==> allocatable().contains(c) && !graph.interferes(
                Register::Pseudo(p),
                Register::Physical(c),
            )),
        distinct(r->Ok_0@),
{
    let mut result: Candidates = OrdinalMap::new();
    let mut i: usize = 0;
    while i < graph.arcs.len()
        invariant
            i <= graph.arcs@.len(),
            graph.wf(),
            distinct(result@),
            forall|p: PseudoRegister|
                result@.contains_key(p.index) <==> exists|k: int|
                    0 <= k < i && (#[trigger] graph.arcs@[k]).0 == Register::Pseudo(p),
            forall|p: PseudoRegister, c: PhysicalRegister|
                result@.contains_key(p.index) ==> (#[trigger] candidate(result@, p, c)
                    <==> allocatable().contains(c) && !graph.interferes(
                    Register::Pseudo(p),
                    Register::Physical(c),
                )),
        decreases graph.arcs@.len() - i,
    {
        let ghost before = result@;
        match graph.arcs[i].0 {
            Register::Pseudo(reg) => {
                let mut colors: Vec<PhysicalRegister> = Vec::new();
                let mut k: usize = 0;
                proof {
                    lemma_arc_exact(*graph, i as int);
                }
                proof {
                    lemma_allocatable_distinct();
                }
                while k < ALLOCATABLE_COUNT
                    invariant
                        k <= ALLOCATABLE_COUNT,
                        allocatable().len() == ALLOCATABLE_COUNT,
                        allocatable().no_duplicates(),
                        colors@.no_duplicates(),
                        i < graph.arcs@.len(),
                        graph.arcs@[i as int].0 == Register::Pseudo(reg),
                        forall|b: Register|
                            graph.interferes(Register::Pseudo(reg), b)
                                <==> graph.arcs@[i as int].1.intfs@.contains(b),
                        forall|c: PhysicalRegister|
                            colors@.contains(c) <==> (exists|w: int|
                                0 <= w < k && allocatable()[w] == c) && !graph.interferes(
                                Register::Pseudo(reg),
                                Register::Physical(c),
                            ),
                    decreases ALLOCATABLE_COUNT - k,
                {
                    let color = allocatable_register(k);
                    let ghost seen = colors@;
                    let kept = !member(&graph.arcs[i].1.intfs, Register::Physical(color));
                    if kept {
                        proof {
                            if seen.contains(color) {
                                let w = choose|w: int| 0 <= w < k && allocatable()[w] == color;
                                assert(allocatable()[w] == allocatable()[k as int]);
                            }
                        }
                        colors.push(color);
                    }
                    proof {
                        assert forall|c: PhysicalRegister|
                            colors@.contains(c) <==> (exists|w: int|
                                0 <= w < k + 1 && allocatable()[w] == c) && !graph.interferes(
                                Register::Pseudo(reg),
                                Register::Physical(c),
                            ) by {
                            if colors@.contains(c) {
                                let w = choose|w: int| 0 <= w < colors@.len() && colors@[w] == c;
                                if w < seen.len() {
                                    assert(seen[w] == c);
                                    assert(seen.contains(c));
                                    let v = choose|v: int| 0 <= v < k && allocatable()[v] == c;
                                    assert(0 <= v < k + 1 && allocatable()[v] == c);
                                } else {
                                    assert(0 <= k < k + 1 && allocatable()[k as int] == c);
                                }
                            }
                            if (exists|w: int| 0 <= w < k + 1 && allocatable()[w] == c)
                                && !graph.interferes(Register::Pseudo(reg), Register::Physical(c)) {
                                let w = choose|w: int| 0 <= w < k + 1 && allocatable()[w] == c;
                                if w < k {
                                    assert(seen.contains(c));
                                    let v = choose|v: int| 0 <= v < seen.len() && seen[v] == c;
                                    assert(colors@[v] == c);
                                } else {
                                    assert(kept);
                                    assert(colors@[seen.len() as int] == c);
                                }
                            }
                        }
                    }
                    k = k + 1;
                }
                result.insert(reg.index, colors);
                proof {
                    assert forall|p: PseudoRegister|
                        result@.contains_key(p.index) <==> exists|k: int|
                            0 <= k < i + 1 && (#[trigger] graph.arcs@[k]).0 == Register::Pseudo(
                                p,
                            ) by {
                        if before.contains_key(p.index) {
                            let w = choose|w: int|
                                0 <= w < i && (#[trigger] graph.arcs@[w]).0 == Register::Pseudo(p);
                            assert(0 <= w < i + 1);
                        }
                        if p.index == reg.index {
                            assert(p == reg);
                            assert(graph.arcs@[i as int].0 == Register::Pseudo(p));
                        }
                        if exists|k: int|
                            0 <= k < i + 1 && (#[trigger] graph.arcs@[k]).0 == Register::Pseudo(p) {
                            let w = choose|w: int|
                                0 <= w < i + 1 && (#[trigger] graph.arcs@[w]).0 == Register::Pseudo(
                                    p,
                                );
                            if w < i {
                                assert(before.contains_key(p.index));
                            }
                        }
                    }
                    assert forall|p: PseudoRegister, c: PhysicalRegister|
                        result@.contains_key(p.index) implies (#[trigger] candidate(result@, p, c)
                        <==> allocatable().contains(c) && !graph.interferes(
                        Register::Pseudo(p),
                        Register::Physical(c),
                    )) by {
                        if p.index == reg.index {
                            assert(p == reg);
                            if allocatable().contains(c) {
                                let w = choose|w: int|
                                    0 <= w < allocatable().len() && allocatable()[w] == c;
                                assert(0 <= w < ALLOCATABLE_COUNT && allocatable()[w] == c);
                            }
                            if colors@.contains(c) {
                                let w = choose|w: int|
                                    0 <= w < ALLOCATABLE_COUNT && allocatable()[w] == c;
                                assert(allocatable().contains(c));
                            }
                        } else {
                            assert(candidate(result@, p, c) <==> candidate(before, p, c));
                        }
                    }
                }
            },
            Register::Physical(_) => {
                proof {
                    assert forall|p: PseudoRegister|
                        result@.contains_key(p.index) <==> exists|k: int|
                            0 <= k < i + 1 && (#[trigger] graph.arcs@[k]).0 == Register::Pseudo(
                                p,
                            ) by {
                        if result@.contains_key(p.index) {
                            let w = choose|w: int|
                                0 <= w < i && (#[trigger] graph.arcs@[w]).0 == Register::Pseudo(p);
                            assert(0 <= w < i + 1);
                        }
                    }
                }
            },
        }
        i = i + 1;
    }
    Ok(result)
}

/// The pseudo-registers of `graph`, in ascending order of their ordinals.
pub fn pseudo_vertices(graph: &InterferenceGraph) -> (r: Vec<PseudoRegister>)
    requires
        graph.wf(),
    ensures
        forall|i: int, j: int| 0 <= i < j < r@.len() ==> r@[i].index < r@[j].index,
        forall|p: PseudoRegister| r@.contains(p) <==> graph.has(Register::Pseudo(p)),
{
    let mut todo: Vec<PseudoRegister> = Vec::new();
    let mut i: usize = 0;
    while i < graph.arcs.len()
        invariant
            i <= graph.arcs@.len(),
            graph.wf(),
            forall|a: int, b: int| 0 <= a < b < todo@.len() ==> todo@[a].index < todo@[b].index,
            forall|p: PseudoRegister|
                todo@.contains(p) <==> exists|k: int|
                    0 <= k < i && (#[trigger] graph.arcs@[k]).0 == Register::Pseudo(p),
        decreases graph.arcs@.len() - i,
    {
        let ghost before = todo@;
        match graph.arcs[i].0 {
            Register::Pseudo(reg) => {
                proof {
                    if before.contains(reg) {
                        let w = choose|w: int|
                            0 <= w < i && (#[trigger] graph.arcs@[w]).0 == Register::Pseudo(reg);
                        assert(graph.arcs@[i as int].0 == Register::Pseudo(reg));
                        assert(false);
                    }
                }
                let mut at: usize = 0;
                while at < todo.len() && todo[at].index < reg.index
                    invariant
                        at <= todo@.len(),
                        forall|a: int| 0 <= a < at ==> todo@[a].index < reg.index,
                    decreases todo@.len() - at,
                {
                    at = at + 1;
                }
                todo.insert(at, reg);
                proof {
                    assert(todo@ =~= before.insert(at as int, reg));
                    assert forall|a: int, b: int| 0 <= a < b < todo@.len() implies todo@[a].index
                        < todo@[b].index by {
                        if b == at {
                        } else if a == at {
                            assert(todo@[b] == before[b - 1]);
                            assert(before.contains(before[b - 1]));
                            if at < before.len() {
                                assert(before[at as int].index >= reg.index);
                                assert(before[at as int] != reg);
                                assert(before[at as int].index != reg.index);
                            }
                        } else {
                        }
                    }
                    assert forall|p: PseudoRegister|
                        todo@.contains(p) <==> exists|k: int|
                            0 <= k < i + 1 && (#[trigger] graph.arcs@[k]).0 == Register::Pseudo(p) by {
                        if todo@.contains(p) {
                            let w = choose|w: int| 0 <= w < todo@.len() && todo@[w] == p;
                            if w == at {
                                assert(graph.arcs@[i as int].0 == Register::Pseudo(p));
                            } else {
                                let v = if w < at {
                                    w
                                } else {
                                    w - 1
                                };
                                assert(before[v] == p);
                                assert(before.contains(p));
                                let k = choose|k: int|
                                    0 <= k < i && (#[trigger] graph.arcs@[k]).0 == Register::Pseudo(
                                        p,
                                    );
                                assert(0 <= k < i + 1);
                            }
                        }
                        if exists|k: int|
                            0 <= k < i + 1 && (#[trigger] graph.arcs@[k]).0 == Register::Pseudo(p) {
                            let k = choose|k: int|
                                0 <= k < i + 1 && (#[trigger] graph.arcs@[k]).0 == Register::Pseudo(
                                    p,
                                );
                            if k < i {
                                assert(before.contains(p));
                                let v = choose|v: int| 0 <= v < before.len() && before[v] == p;
                                let w = if v < at {
                                    v
                                } else {
                                    v + 1
                                };
                                assert(todo@[w] == p);
                            } else {
                                assert(todo@[at as int] == p);
                            }
                        }
                    }
                }
            },
            Register::Physical(_) => {
                proof {
                    assert forall|p: PseudoRegister|
                        todo@.contains(p) <==> exists|k: int|
                            0 <= k < i + 1 && (#[trigger] graph.arcs@[k]).0 == Register::Pseudo(p) by {
                        if todo@.contains(p) {
                            let w = choose|w: int|
                                0 <= w < i && (#[trigger] graph.arcs@[w]).0 == Register::Pseudo(p);
                            assert(0 <= w < i + 1);
                        }
                    }
                }
            },
        }
        i = i + 1;
    }
    todo
}

/// The colors of `colors` but `color`.
fn without_color(colors: &Vec<PhysicalRegister>, color: PhysicalRegister) -> (r: Vec<
    PhysicalRegister,
>)
    ensures
        forall|c: PhysicalRegister| #[trigger] r@.contains(c) <==> colors@.contains(c) && c != color,
        colors@.no_duplicates() ==> r@.no_duplicates(),
{
    let mut out: Vec<PhysicalRegister> = Vec::new();
    let mut j: usize = 0;
    while j < colors.len()
        invariant
            j <= colors@.len(),
            colors@.no_duplicates() ==> out@.no_duplicates(),
            forall|c: PhysicalRegister|
                #[trigger] out@.contains(c) <==> (exists|q: int| 0 <= q < j && colors@[q] == c)
                    && c != color,
        decreases colors@.len() - j,
    {
        let candidate = colors[j];
        let ghost before = out@;
        let kept = candidate != color;
        if kept {
            proof {
                if colors@.no_duplicates() && before.contains(candidate) {
                    let q = choose|q: int| 0 <= q < j && colors@[q] == candidate;
                    assert(colors@[q] == colors@[j as int]);
                }
            }
            out.push(candidate);
        }
        proof {
            assert forall|c: PhysicalRegister|
                #[trigger] out@.contains(c) <==> (exists|q: int| 0 <= q < j + 1 && colors@[q] == c)
                    && c != color by {
                if out@.contains(c) {
                    let q = choose|q: int| 0 <= q < out@.len() && out@[q] == c;
                    if q < before.len() {
                        assert(before[q] == c);
                        assert(before.contains(c));
                        let w = choose|w: int| 0 <= w < j && colors@[w] == c;
                        assert(0 <= w < j + 1 && colors@[w] == c);
                    } else {
                        assert(0 <= j < j + 1 && colors@[j as int] == c);
                    }
                }
                if (exists|q: int| 0 <= q < j + 1 && colors@[q] == c) && c != color {
                    let q = choose|q: int| 0 <= q < j + 1 && colors@[q] == c;
                    if q < j {
                        assert(before.contains(c));
                        let w = choose|w: int| 0 <= w < before.len() && before[w] == c;
                        assert(out@[w] == c);
                    } else {
                        assert(out@[before.len() as int] == c);
                    }
                }
            }
        }
        j = j + 1;
    }
    out
}

/// Takes `color` from the candidates of every pseudo-register that `reg` is
/// set against.
pub fn strike(
    allocatable: &mut Candidates,
    graph: &InterferenceGraph,
    reg: PseudoRegister,
    color: PhysicalRegister,
)
    requires
        graph.wf(),
        graph.has(Register::Pseudo(reg)),
    ensures
        distinct(old(allocatable)@) ==> distinct(final(allocatable)@),
        forall|k: u32| final(allocatable)@.contains_key(k) <==> old(allocatable)@.contains_key(k),
        forall|p: PseudoRegister, c: PhysicalRegister|
            #[trigger] candidate(final(allocatable)@, p, c) <==> candidate(old(allocatable)@, p, c)
                && !(c == color && graph.interferes(Register::Pseudo(reg), Register::Pseudo(p))),
{
    match graph.position(Register::Pseudo(reg)) {
        Some(at) => {
            proof {
                lemma_arc_exact(*graph, at as int);
            }
            let intfs = &graph.arcs[at].1.intfs;
            let mut k: usize = 0;
            while k < intfs.len()
                invariant
                    k <= intfs@.len(),
                    forall|b: Register|
                        graph.interferes(Register::Pseudo(reg), b) <==> intfs@.contains(b),
                    distinct(old(allocatable)@) ==> distinct(allocatable@),
                    forall|key: u32|
                        allocatable@.contains_key(key) <==> old(allocatable)@.contains_key(key),
                    forall|p: PseudoRegister, c: PhysicalRegister|
                        #[trigger] candidate(allocatable@, p, c) <==> candidate(
                            old(allocatable)@,
                            p,
                            c,
                        ) && !(c == color && exists|w: int|
                            0 <= w < k && intfs@[w] == Register::Pseudo(p)),
                decreases intfs@.len() - k,
            {
                let ghost before = allocatable@;
                match intfs[k] {
                    Register::Pseudo(other) => {
                        let filtered = match allocatable.get(other.index) {
                            Some(candidates) => Some(without_color(candidates, color)),
                            None => None,
                        };
                        match filtered {
                            Some(colors) => {
                                allocatable.insert(other.index, colors);
                            },
                            None => {},
                        }
                        proof {
                            assert forall|p: PseudoRegister, c: PhysicalRegister|
                                #[trigger] candidate(allocatable@, p, c) <==> candidate(
                                    old(allocatable)@,
                                    p,
                                    c,
                                ) && !(c == color && exists|w: int|
                                    0 <= w < k + 1 && intfs@[w] == Register::Pseudo(p)) by {
                                assert(candidate(before, p, c) <==> candidate(
                                    old(allocatable)@,
                                    p,
                                    c,
                                ) && !(c == color && exists|w: int|
                                    0 <= w < k && intfs@[w] == Register::Pseudo(p)));
                                if exists|w: int| 0 <= w < k && intfs@[w] == Register::Pseudo(p) {
                                    let w = choose|w: int|
                                        0 <= w < k && intfs@[w] == Register::Pseudo(p);
                                    assert(0 <= w < k + 1 && intfs@[w] == Register::Pseudo(p));
                                }
                                if p.index == other.index {
                                    assert(p == other);
                                    assert(0 <= k < k + 1 && intfs@[k as int] == Register::Pseudo(
                                        p,
                                    ));
                                } else {
                                    assert(candidate(allocatable@, p, c) <==> candidate(
                                        before,
                                        p,
                                        c,
                                    ));
                                    if exists|w: int|
                                        0 <= w < k + 1 && intfs@[w] == Register::Pseudo(p) {
                                        let w = choose|w: int|
                                            0 <= w < k + 1 && intfs@[w] == Register::Pseudo(p);
                                        assert(w < k);
                                    }
                                }
                            }
                        }
                    },
                    Register::Physical(_) => {
                        proof {
                            assert forall|p: PseudoRegister, c: PhysicalRegister|
                                #[trigger] candidate(allocatable@, p, c) <==> candidate(
                                    old(allocatable)@,
                                    p,
                                    c,
                                ) && !(c == color && exists|w: int|
                                    0 <= w < k + 1 && intfs@[w] == Register::Pseudo(p)) by {
                                if exists|w: int| 0 <= w < k && intfs@[w] == Register::Pseudo(p) {
                                    let w = choose|w: int|
                                        0 <= w < k && intfs@[w] == Register::Pseudo(p);
                                    assert(0 <= w < k + 1 && intfs@[w] == Register::Pseudo(p));
                                }
                                if exists|w: int|
                                    0 <= w < k + 1 && intfs@[w] == Register::Pseudo(p) {
                                    let w = choose|w: int|
                                        0 <= w < k + 1 && intfs@[w] == Register::Pseudo(p);
                                    assert(w < k);
                                }
                            }
                        }
                    },
                }
                k = k + 1;
            }
            proof {
                assert forall|p: PseudoRegister, c: PhysicalRegister|
                    #[trigger] candidate(allocatable@, p, c) <==> candidate(
                        old(allocatable)@,
                        p,
                        c,
                    ) && !(c == color && graph.interferes(
                        Register::Pseudo(reg),
                        Register::Pseudo(p),
                    )) by {
                    if graph.interferes(Register::Pseudo(reg), Register::Pseudo(p)) {
                        assert(intfs@.contains(Register::Pseudo(p)));
                        let w = choose|w: int|
                            0 <= w < intfs@.len() && intfs@[w] == Register::Pseudo(p);
                        assert(0 <= w < k && intfs@[w] == Register::Pseudo(p));
                    }
                    if exists|w: int| 0 <= w < k && intfs@[w] == Register::Pseudo(p) {
                        let w = choose|w: int| 0 <= w < k && intfs@[w] == Register::Pseudo(p);
                        assert(intfs@.contains(intfs@[w]));
                    }
                }
            }
        },
        None => {
            proof {
                assert(false);
            }
        },
    }
}

/// A color that blocks under `colors` blocks under every extension of it.
pub proof fn lemma_blocked_grows(
    graph: InterferenceGraph,
    colors: Map<u32, Operand>,
    more: Map<u32, Operand>,
    p: PseudoRegister,
    c: PhysicalRegister,
)
    requires
        forall|k: u32| colors.contains_key(k) ==> more.contains_key(k) && more[k] == colors[k],
        blocked(graph, colors, p, c),
    ensures
        blocked(graph, more, p, c),
{
    let q = choose|q: PseudoRegister|
        #![trigger colors[q.index]]
        colors.contains_key(q.index) && colors[q.index] == Operand::Register(c)
            && graph.interferes(Register::Pseudo(q), Register::Pseudo(p));
    assert(more.contains_key(q.index) && more[q.index] == Operand::Register(c));
}

/// Giving the register `todo[i]` one of its candidates keeps the state of
/// the loop as it should be.
pub proof fn lemma_assign(
    graph: InterferenceGraph,
    todo: Seq<PseudoRegister>,
    candidates: Map<u32, Vec<PhysicalRegister>>,
    colors: Map<u32, Operand>,
    count: nat,
    i: int,
    c: PhysicalRegister,
    struck: Map<u32, Vec<PhysicalRegister>>,
)
    requires
        progress(graph, todo, candidates, colors, count),
        0 <= i < todo.len(),
        candidate(candidates, todo[i], c),
        forall|k: u32| struck.contains_key(k) <==> candidates.contains_key(k),
        forall|p: PseudoRegister, other: PhysicalRegister|
            #[trigger] candidate(struck, p, other) <==> candidate(candidates, p, other) && !(other
                == c && graph.interferes(Register::Pseudo(todo[i]), Register::Pseudo(p))),
    ensures
        progress(
            graph,
            todo.remove(i),
            struck,
            colors.insert(todo[i].index, Operand::Register(c)),
            count,
        ),
{
    let taken = todo[i];
    let rest = todo.remove(i);
    let more = colors.insert(taken.index, Operand::Register(c));
    assert(free_for(graph, colors, taken, c));
    assert forall|j: int| 0 <= j < rest.len() implies #[trigger] rest[j] != taken && todo.contains(
        rest[j],
    ) by {
        if j < i {
            assert(rest[j] == todo[j]);
        } else {
            assert(rest[j] == todo[j + 1]);
        }
    }
    assert forall|p: PseudoRegister|
        graph.has(Register::Pseudo(p)) <==> rest.contains(p) || more.contains_key(p.index) by {
        if todo.contains(p) && p != taken {
            let j = choose|j: int| 0 <= j < todo.len() && todo[j] == p;
            if j < i {
                assert(rest[j] == p);
            } else {
                assert(rest[j - 1] == p);
            }
        }
        if rest.contains(p) {
            let j = choose|j: int| 0 <= j < rest.len() && rest[j] == p;
            assert(todo.contains(rest[j]));
        }
        if p.index == taken.index {
            assert(p == taken);
            assert(todo.contains(taken));
        }
    }
    assert forall|j: int| 0 <= j < rest.len() implies !more.contains_key(
        (#[trigger] rest[j]).index,
    ) by {
        let w = if j < i {
            j
        } else {
            j + 1
        };
        assert(rest[j] == todo[w]);
        assert(!colors.contains_key(todo[w].index));
    }
    assert(ready(rest, struck, graph)) by {
        assert forall|j: int| 0 <= j < rest.len() implies struck.contains_key(
            (#[trigger] rest[j]).index,
        ) && graph.has(Register::Pseudo(rest[j])) by {
            let w = if j < i {
                j
            } else {
                j + 1
            };
            assert(rest[j] == todo[w]);
            assert(candidates.contains_key(todo[w].index));
        }
    }
    assert forall|j: int, other: PhysicalRegister| 0 <= j < rest.len() implies (
    #[trigger] candidate(struck, rest[j], other) <==> free_for(graph, more, rest[j], other)) by {
        let w = if j < i {
            j
        } else {
            j + 1
        };
        let p = rest[j];
        assert(p == todo[w]);
        assert(candidate(candidates, todo[w], other) <==> free_for(graph, colors, todo[w], other));
        if blocked(graph, colors, p, other) {
            lemma_blocked_grows(graph, colors, more, p, other);
        }
        if other == c && graph.interferes(Register::Pseudo(taken), Register::Pseudo(p)) {
            assert(more.contains_key(taken.index) && more[taken.index] == Operand::Register(c));
            assert(blocked(graph, more, p, other));
        }
        if blocked(graph, more, p, other) {
            let q = choose|q: PseudoRegister|
                #![trigger more[q.index]]
                more.contains_key(q.index) && more[q.index] == Operand::Register(other)
                    && graph.interferes(Register::Pseudo(q), Register::Pseudo(p));
            if q.index == taken.index {
                assert(q == taken);
            } else {
                assert(colors.contains_key(q.index) && colors[q.index] == Operand::Register(
                    other,
                ));
                assert(blocked(graph, colors, p, other));
            }
        }
    }
    assert(sound(graph, more, count)) by {
        assert forall|p: PseudoRegister|
            more.contains_key(p.index) && #[trigger] more[p.index] is Register implies allocatable().contains(
            more[p.index]->Register_0,
        ) && !graph.interferes(
            Register::Pseudo(p),
            Register::Physical(more[p.index]->Register_0),
        ) by {
            if p.index == taken.index {
                assert(p == taken);
            } else {
                assert(colors[p.index] is Register);
            }
        }
        assert forall|p: PseudoRegister, q: PseudoRegister|
            p != q && more.contains_key(p.index) && more.contains_key(q.index)
                && #[trigger] more[p.index] == #[trigger] more[q.index] && more[p.index]
                is Register implies !(graph.interferes(Register::Pseudo(p), Register::Pseudo(q))
            && graph.interferes(Register::Pseudo(q), Register::Pseudo(p))) by {
            if p.index == taken.index {
                assert(p == taken);
                assert(colors.contains_key(q.index) && colors[q.index] == Operand::Register(c));
                if graph.interferes(Register::Pseudo(q), Register::Pseudo(taken)) {
                    assert(blocked(graph, colors, taken, c));
                }
            } else if q.index == taken.index {
                assert(q == taken);
                assert(colors.contains_key(p.index) && colors[p.index] == Operand::Register(c));
                if graph.interferes(Register::Pseudo(p), Register::Pseudo(taken)) {
                    assert(blocked(graph, colors, taken, c));
                }
            } else {
                assert(colors[p.index] == colors[q.index]);
            }
        }
        assert forall|p: PseudoRegister|
            more.contains_key(p.index) && #[trigger] more[p.index] is Spilled implies more[p.index]->Spilled_0
            < count by {
            assert(p.index != taken.index);
            assert(colors[p.index] is Spilled);
        }
        assert forall|p: PseudoRegister, q: PseudoRegister|
            p != q && more.contains_key(p.index) && more.contains_key(q.index)
                && #[trigger] more[p.index] is Spilled implies more[p.index]
            != #[trigger] more[q.index] by {
            assert(p.index != taken.index);
            assert(colors[p.index] is Spilled);
            if q.index != taken.index {
                assert(colors[p.index] != colors[q.index]);
            }
        }
        assert forall|s: usize| s < count implies #[trigger] slot_used(more, s) by {
            assert(slot_used(colors, s));
            let p = choose|p: PseudoRegister|
                colors.contains_key(p.index) && #[trigger] colors[p.index] == Operand::Spilled(s);
            assert(more.contains_key(p.index) && more[p.index] == Operand::Spilled(s));
        }
        assert forall|p: PseudoRegister, other: PhysicalRegister|
            more.contains_key(p.index) && #[trigger] more[p.index] is Spilled
                && #[trigger] allocatable().contains(other) implies graph.interferes(
            Register::Pseudo(p),
            Register::Physical(other),
        ) || blocked(graph, more, p, other) by {
            assert(p.index != taken.index);
            assert(colors[p.index] is Spilled);
            if blocked(graph, colors, p, other) {
                lemma_blocked_grows(graph, colors, more, p, other);
            }
        }
    }
}

/// Giving the first register of `todo` a fresh frame slot, when no register
/// of `todo` has a candidate left, keeps the state of the loop as it should
/// be.
pub proof fn lemma_spill(
    graph: InterferenceGraph,
    todo: Seq<PseudoRegister>,
    candidates: Map<u32, Vec<PhysicalRegister>>,
    colors: Map<u32, Operand>,
    count: usize,
)
    requires
        progress(graph, todo, candidates, colors, count as nat),
        0 < todo.len(),
        count < usize::MAX,
        forall|j: int, other: PhysicalRegister|
            0 <= j < todo.len() ==> !#[trigger] candidate(candidates, todo[j], other),
    ensures
        progress(
            graph,
            todo.remove(0),
            candidates,
            colors.insert(todo[0].index, Operand::Spilled(count)),
            (count + 1) as nat,
        ),
{
    let taken = todo[0];
    let rest = todo.remove(0);
    let more = colors.insert(taken.index, Operand::Spilled(count));
    assert forall|j: int| 0 <= j < rest.len() implies #[trigger] rest[j] == todo[j + 1] by {}
    assert forall|p: PseudoRegister|
        graph.has(Register::Pseudo(p)) <==> rest.contains(p) || more.contains_key(p.index) by {
        if todo.contains(p) && p != taken {
            let j = choose|j: int| 0 <= j < todo.len() && todo[j] == p;
            assert(rest[j - 1] == p);
        }
        if rest.contains(p) {
            let j = choose|j: int| 0 <= j < rest.len() && rest[j] == p;
            assert(todo[j + 1] == p);
            assert(todo.contains(p));
        }
        if p.index == taken.index {
            assert(p == taken);
            assert(todo.contains(taken));
        }
    }
    assert forall|j: int| 0 <= j < rest.len() implies !more.contains_key(
        (#[trigger] rest[j]).index,
    ) by {
        assert(rest[j] == todo[j + 1]);
        assert(!colors.contains_key(todo[j + 1].index));
        assert(todo[0].index < todo[j + 1].index);
    }
    assert(ready(rest, candidates, graph)) by {
        assert forall|j: int| 0 <= j < rest.len() implies candidates.contains_key(
            (#[trigger] rest[j]).index,
        ) && graph.has(Register::Pseudo(rest[j])) by {
            assert(rest[j] == todo[j + 1]);
            assert(candidates.contains_key(todo[j + 1].index));
        }
    }
    assert forall|p: PseudoRegister, other: PhysicalRegister|
        blocked(graph, more, p, other) <==> blocked(graph, colors, p, other) by {
        if blocked(graph, colors, p, other) {
            lemma_blocked_grows(graph, colors, more, p, other);
        }
        if blocked(graph, more, p, other) {
            let q = choose|q: PseudoRegister|
                #![trigger more[q.index]]
                more.contains_key(q.index) && more[q.index] == Operand::Register(other)
                    && graph.interferes(Register::Pseudo(q), Register::Pseudo(p));
            assert(q.index != taken.index);
            assert(colors.contains_key(q.index) && colors[q.index] == Operand::Register(other));
        }
    }
    assert forall|j: int, other: PhysicalRegister| 0 <= j < rest.len() implies (
    #[trigger] candidate(candidates, rest[j], other) <==> free_for(
        graph,
        more,
        rest[j],
        other,
    )) by {
        assert(rest[j] == todo[j + 1]);
        assert(candidate(candidates, todo[j + 1], other) <==> free_for(
            graph,
            colors,
            todo[j + 1],
            other,
        ));
    }
    assert(sound(graph, more, (count + 1) as nat)) by {
        assert forall|p: PseudoRegister|
            more.contains_key(p.index) && #[trigger] more[p.index] is Register implies allocatable().contains(
            more[p.index]->Register_0,
        ) && !graph.interferes(
            Register::Pseudo(p),
            Register::Physical(more[p.index]->Register_0),
        ) by {
            assert(p.index != taken.index);
            assert(colors[p.index] is Register);
        }
        assert forall|p: PseudoRegister, q: PseudoRegister|
            p != q && more.contains_key(p.index) && more.contains_key(q.index)
                && #[trigger] more[p.index] == #[trigger] more[q.index] && more[p.index]
                is Register implies !(graph.interferes(Register::Pseudo(p), Register::Pseudo(q))
            && graph.interferes(Register::Pseudo(q), Register::Pseudo(p))) by {
            assert(p.index != taken.index && q.index != taken.index);
            assert(colors[p.index] == colors[q.index]);
        }
        assert forall|p: PseudoRegister|
            more.contains_key(p.index) && #[trigger] more[p.index] is Spilled implies more[p.index]->Spilled_0
            < count + 1 by {
            if p.index != taken.index {
                assert(colors[p.index] is Spilled);
            }
        }
        assert forall|p: PseudoRegister, q: PseudoRegister|
            p != q && more.contains_key(p.index) && more.contains_key(q.index)
                && #[trigger] more[p.index] is Spilled implies more[p.index]
            != #[trigger] more[q.index] by {
            if p.index == taken.index {
                assert(p == taken);
                assert(q.index != taken.index);
                if colors[q.index] is Spilled {
                    assert(colors[q.index]->Spilled_0 < count);
                }
            } else if q.index == taken.index {
                assert(colors[p.index] is Spilled);
                assert(colors[p.index]->Spilled_0 < count);
            } else {
                assert(colors[p.index] is Spilled);
                assert(colors[p.index] != colors[q.index]);
            }
        }
        assert forall|s: usize| s < count + 1 implies #[trigger] slot_used(more, s) by {
            if s < count {
                assert(slot_used(colors, s));
                let p = choose|p: PseudoRegister|
                    colors.contains_key(p.index) && #[trigger] colors[p.index] == Operand::Spilled(
                        s,
                    );
                assert(p.index != taken.index);
                assert(more.contains_key(p.index) && more[p.index] == Operand::Spilled(s));
            } else {
                assert(more.contains_key(taken.index) && more[taken.index] == Operand::Spilled(s));
            }
        }
        assert forall|p: PseudoRegister, other: PhysicalRegister|
            more.contains_key(p.index) && #[trigger] more[p.index] is Spilled
                && #[trigger] allocatable().contains(other) implies graph.interferes(
            Register::Pseudo(p),
            Register::Physical(other),
        ) || blocked(graph, more, p, other) by {
            if p.index == taken.index {
                assert(p == taken);
                assert(!candidate(candidates, todo[0], other));
                assert(!free_for(graph, colors, todo[0], other));
            } else {
                assert(colors[p.index] is Spilled);
            }
        }
    }
}

/// Where `reg` stands in `todo`.
fn position_of(todo: &Vec<PseudoRegister>, reg: PseudoRegister) -> (r: usize)
    requires
        todo@.contains(reg),
    ensures
        r < todo@.len(),
        todo@[r as int] == reg,
{
    let mut i: usize = 0;
    while i < todo.len()
        invariant
            i <= todo@.len(),
            todo@.contains(reg),
            forall|k: int| 0 <= k < i ==> todo@[k] != reg,
        decreases todo@.len() - i,
    {
        if todo[i] == reg {
            return i;
        }
        i = i + 1;
    }
    proof {
        let k = choose|k: int| 0 <= k < todo@.len() && todo@[k] == reg;
        assert(false);
    }
    0
}

/// `found` is what the four rules give on `todo`, tried in turn: the first
/// register with one candidate that a preference of it has; else the first
/// with one candidate; else the first with a candidate that a preference of
/// it has; else the first with a candidate; each with such a candidate.
/// `None` where no register of `todo` has a candidate.
pub open spec fn by_rules(
    todo: Seq<PseudoRegister>,
    found: Option<(PseudoRegister, PhysicalRegister)>,
    allocatable: Map<u32, Vec<PhysicalRegister>>,
    graph: InterferenceGraph,
    colors: Map<u32, Operand>,
) -> bool {
    if found is Some {
        ||| first_hinted(todo, found, allocatable, graph, colors, true)
        ||| {
            &&& first_hinted(todo, None, allocatable, graph, colors, true)
            &&& first_plain(todo, found, allocatable, true)
        }
        ||| {
            &&& first_hinted(todo, None, allocatable, graph, colors, true)
            &&& first_plain(todo, None, allocatable, true)
            &&& first_hinted(todo, found, allocatable, graph, colors, false)
        }
        ||| {
            &&& first_hinted(todo, None, allocatable, graph, colors, true)
            &&& first_plain(todo, None, allocatable, true)
            &&& first_hinted(todo, None, allocatable, graph, colors, false)
            &&& first_plain(todo, found, allocatable, false)
        }
    } else {
        first_plain(todo, None, allocatable, false)
    }
}

/// The first pair that the four rules find, taken in their order: one
/// color with a preference for it; one color; a preference with a known
/// color; any color.
pub fn pick(
    todo: &Vec<PseudoRegister>,
    allocatable: &Candidates,
    graph: &InterferenceGraph,
    colors: &OrdinalMap<Operand>,
) -> (r: Option<(PseudoRegister, PhysicalRegister)>)
    requires
        graph.wf(),
        ready(todo@, allocatable@, *graph),
    ensures
        by_rules(todo@, r, allocatable@, *graph, colors@),
        match r {
            Some((p, c)) => todo@.contains(p) && candidate(allocatable@, p, c),
            None => forall|j: int, other: PhysicalRegister|
                0 <= j < todo@.len() ==> !#[trigger] candidate(allocatable@, todo@[j], other),
        },
{
    match search_one_color_with_preference(todo, allocatable, graph, colors) {
        Some((p, c)) => {
            assert(todo@.contains(p) && candidate(allocatable@, p, c));
            return Some((p, c));
        },
        None => {},
    }
    match search_one_color(todo, allocatable) {
        Some((p, c)) => {
            assert(todo@.contains(p) && candidate(allocatable@, p, c));
            return Some((p, c));
        },
        None => {},
    }
    match search_pref_with_known_color(todo, allocatable, graph, colors) {
        Some((p, c)) => {
            assert(todo@.contains(p) && candidate(allocatable@, p, c));
            return Some((p, c));
        },
        None => {},
    }
    match search_any_color(todo, allocatable) {
        Some((p, c)) => {
            assert(todo@.contains(p) && candidate(allocatable@, p, c));
            Some((p, c))
        },
        None => {
            assert forall|j: int, other: PhysicalRegister| 0 <= j < todo@.len() implies !#[trigger] candidate(
                allocatable@,
                todo@[j],
                other,
            ) by {
                assert(!crate::coloring::search::plain_rule(allocatable@, false, todo@[j], other));
            }
            None
        },
    }
}

/// A register whose candidates are its free colors, each once, has one
/// candidate exactly where one color is free for it.
pub proof fn lemma_single(
    graph: InterferenceGraph,
    candidates: Map<u32, Vec<PhysicalRegister>>,
    colors: Map<u32, Operand>,
    p: PseudoRegister,
)
    requires
        candidates.contains_key(p.index),
        candidates[p.index]@.no_duplicates(),
        forall|c: PhysicalRegister| #[trigger]
            candidate(candidates, p, c) <==> free_for(graph, colors, p, c),
    ensures
        single(candidates, p) <==> only_choice(graph, colors, p),
{
    let list = candidates[p.index]@;
    if single(candidates, p) {
        let only = list[0];
        assert(list.contains(only));
        assert(candidate(candidates, p, only));
        assert(free_for(graph, colors, p, only));
        assert forall|d: PhysicalRegister| free_for(graph, colors, p, d) implies d == only by {
            assert(candidate(candidates, p, d));
            let w = choose|w: int| 0 <= w < list.len() && list[w] == d;
            assert(w == 0);
        }
        assert(only_choice(graph, colors, p));
    }
    if only_choice(graph, colors, p) {
        let only = choose|c: PhysicalRegister|
            #![trigger free_for(graph, colors, p, c)]
            free_for(graph, colors, p, c) && forall|d: PhysicalRegister|
                free_for(graph, colors, p, d) ==> d == c;
        assert(candidate(candidates, p, only));
        assert(list.contains(only));
        if list.len() >= 2 {
            assert(list.contains(list[0]));
            assert(list.contains(list[1]));
            assert(candidate(candidates, p, list[0]));
            assert(candidate(candidates, p, list[1]));
            assert(free_for(graph, colors, p, list[0]));
            assert(free_for(graph, colors, p, list[1]));
            assert(list[0] == only && list[1] == only);
        }
        assert(single(candidates, p));
    }
}

/// For a register still to color, the rules on the candidates say what the
/// rules on the free colors say.
pub proof fn lemma_rules_agree(
    graph: InterferenceGraph,
    todo: Seq<PseudoRegister>,
    candidates: Map<u32, Vec<PhysicalRegister>>,
    colors: Map<u32, Operand>,
    count: nat,
    j: int,
)
    requires
        progress(graph, todo, candidates, colors, count),
        distinct(candidates),
        0 <= j < todo.len(),
    ensures
        forall|s: bool, c: PhysicalRegister| #[trigger]
            plain_rule(candidates, s, todo[j], c) <==> allows(graph, colors, s, false, todo[j], c),
        forall|s: bool, c: PhysicalRegister| #[trigger]
            hinted_rule(candidates, graph, colors, s, todo[j], c) <==> allows(
                graph,
                colors,
                s,
                true,
                todo[j],
                c,
            ),
{
    let p = todo[j];
    assert(candidates.contains_key(p.index));
    assert(candidates[p.index]@.no_duplicates());
    assert forall|c: PhysicalRegister| #[trigger]
        candidate(candidates, p, c) <==> free_for(graph, colors, p, c) by {
        assert(candidate(candidates, todo[j], c) <==> free_for(graph, colors, todo[j], c));
    }
    lemma_single(graph, candidates, colors, p);
}

/// Where the rules on the candidates give `todo[at]` the color `c`, the
/// rules on the free colors do.
pub proof fn lemma_takes(
    graph: InterferenceGraph,
    todo: Seq<PseudoRegister>,
    candidates: Map<u32, Vec<PhysicalRegister>>,
    colors: Map<u32, Operand>,
    count: nat,
    at: int,
    c: PhysicalRegister,
)
    requires
        progress(graph, todo, candidates, colors, count),
        distinct(candidates),
        0 <= at < todo.len(),
        by_rules(todo, Some((todo[at], c)), candidates, graph, colors),
    ensures
        takes(graph, colors, todo, at, c),
{
    assert forall|j: int, s: bool, other: PhysicalRegister| 0 <= j < todo.len() implies (
    #[trigger] plain_rule(candidates, s, todo[j], other) <==> allows(
        graph,
        colors,
        s,
        false,
        todo[j],
        other,
    )) by {
        lemma_rules_agree(graph, todo, candidates, colors, count, j);
    }
    assert forall|j: int, s: bool, other: PhysicalRegister| 0 <= j < todo.len() implies (
    #[trigger] hinted_rule(candidates, graph, colors, s, todo[j], other) <==> allows(
        graph,
        colors,
        s,
        true,
        todo[j],
        other,
    )) by {
        lemma_rules_agree(graph, todo, candidates, colors, count, j);
    }
    let found = Some((todo[at], c));
    assert forall|i: int| 0 <= i < todo.len() && #[trigger] todo[i] == todo[at] implies i == at by {
        if i < at {
            assert(todo[i].index < todo[at].index);
        }
        if at < i {
            assert(todo[at].index < todo[i].index);
        }
    }
    assert forall|s: bool| first_hinted(todo, None, candidates, graph, colors, s) implies finds_none(
        graph,
        colors,
        todo,
        s,
        true,
    ) by {
        assert forall|j: int, other: PhysicalRegister| 0 <= j < todo.len() implies !#[trigger] allows(
            graph,
            colors,
            s,
            true,
            todo[j],
            other,
        ) by {
            assert(!hinted_rule(candidates, graph, colors, s, todo[j], other));
        }
    }
    assert forall|s: bool| first_plain(todo, None, candidates, s) implies finds_none(
        graph,
        colors,
        todo,
        s,
        false,
    ) by {
        assert forall|j: int, other: PhysicalRegister| 0 <= j < todo.len() implies !#[trigger] allows(
            graph,
            colors,
            s,
            false,
            todo[j],
            other,
        ) by {
            assert(!plain_rule(candidates, s, todo[j], other));
        }
    }
    assert forall|s: bool| first_hinted(todo, found, candidates, graph, colors, s) implies finds(
        graph,
        colors,
        todo,
        s,
        true,
        at,
        c,
    ) by {
        let i = choose|i: int|
            0 <= i < todo.len() && #[trigger] todo[i] == todo[at] && hinted_rule(
                candidates,
                graph,
                colors,
                s,
                todo[at],
                c,
            ) && forall|j: int, other: PhysicalRegister|
                0 <= j < i ==> !#[trigger] hinted_rule(
                    candidates,
                    graph,
                    colors,
                    s,
                    todo[j],
                    other,
                );
        assert(i == at);
        assert forall|j: int, other: PhysicalRegister| 0 <= j < at implies !#[trigger] allows(
            graph,
            colors,
            s,
            true,
            todo[j],
            other,
        ) by {
            assert(!hinted_rule(candidates, graph, colors, s, todo[j], other));
        }
    }
    assert forall|s: bool| first_plain(todo, found, candidates, s) implies finds(
        graph,
        colors,
        todo,
        s,
        false,
        at,
        c,
    ) by {
        let i = choose|i: int|
            0 <= i < todo.len() && #[trigger] todo[i] == todo[at] && plain_rule(
                candidates,
                s,
                todo[at],
                c,
            ) && forall|j: int, other: PhysicalRegister|
                0 <= j < i ==> !#[trigger] plain_rule(candidates, s, todo[j], other);
        assert(i == at);
        assert forall|j: int, other: PhysicalRegister| 0 <= j < at implies !#[trigger] allows(
            graph,
            colors,
            s,
            false,
            todo[j],
            other,
        ) by {
            assert(!plain_rule(candidates, s, todo[j], other));
        }
    }
}

/// Where the rules on the candidates give nothing, no register still to
/// color has a free color.
pub proof fn lemma_takes_none(
    graph: InterferenceGraph,
    todo: Seq<PseudoRegister>,
    candidates: Map<u32, Vec<PhysicalRegister>>,
    colors: Map<u32, Operand>,
    count: nat,
)
    requires
        progress(graph, todo, candidates, colors, count),
        distinct(candidates),
        by_rules(todo, None, candidates, graph, colors),
    ensures
        finds_none(graph, colors, todo, false, false),
{
    assert forall|j: int, other: PhysicalRegister| 0 <= j < todo.len() implies !#[trigger] allows(
        graph,
        colors,
        false,
        false,
        todo[j],
        other,
    ) by {
        lemma_rules_agree(graph, todo, candidates, colors, count, j);
        assert(!plain_rule(candidates, false, todo[j], other));
    }
}

/// Colors the pseudo-registers of `graph`. It always succeeds: where no
/// rule finds a register and a color, the first register left gets a fresh
/// frame slot.
pub fn color_graph(graph: &InterferenceGraph) -> (r: ColoringResult<Coloring>)
    requires
        graph.wf(),
    ensures
        r is Ok,
        proper(*graph, r->Ok_0),
        colored_by_rules(*graph, r->Ok_0.colors@, r->Ok_0.count_on_stack as nat),
{
    let mut allocatable = match init_allocatable(graph) {
        Ok(candidates) => candidates,
        Err(error) => {
            return Err(error);
        },
    };
    let mut colors: OrdinalMap<Operand> = OrdinalMap::new();
    let mut count_on_stack: usize = 0;
    let mut todo = pseudo_vertices(graph);
    let initial: usize = todo.len();
    let ghost start = todo@;
    proof {
        assert(worklist(*graph, start));
        assert(ready(todo@, allocatable@, *graph)) by {
            assert forall|i: int| 0 <= i < todo@.len() implies allocatable@.contains_key(
                (#[trigger] todo@[i]).index,
            ) && graph.has(Register::Pseudo(todo@[i])) by {
                assert(todo@.contains(todo@[i]));
            }
        }
        assert forall|i: int, c: PhysicalRegister| 0 <= i < todo@.len() implies (
        #[trigger] candidate(allocatable@, todo@[i], c) <==> free_for(
            *graph,
            colors@,
            todo@[i],
            c,
        )) by {
            assert(todo@.contains(todo@[i]));
        }
        assert(sound(*graph, colors@, 0));
    }
    while todo.len() > 0
        invariant
            graph.wf(),
            progress(*graph, todo@, allocatable@, colors@, count_on_stack as nat),
            distinct(allocatable@),
            count_on_stack + todo@.len() <= initial <= usize::MAX,
            forall|end: Map<u32, Operand>, slots: nat| #[trigger]
                leads(*graph, todo@, colors@, count_on_stack as nat, end, slots) ==> leads(
                    *graph,
                    start,
                    Map::empty(),
                    0,
                    end,
                    slots,
                ),
        decreases todo@.len(),
    {
        let ghost todo_before = todo@;
        let ghost colors_before = colors@;
        let ghost count_before = count_on_stack as nat;
        match pick(&todo, &allocatable, graph, &colors) {
            Some((reg, color)) => {
                let at = position_of(&todo, reg);
                let ghost before = allocatable@;
                proof {
                    lemma_takes(
                        *graph,
                        todo@,
                        before,
                        colors@,
                        count_on_stack as nat,
                        at as int,
                        color,
                    );
                }
                strike(&mut allocatable, graph, reg, color);
                proof {
                    lemma_assign(
                        *graph,
                        todo@,
                        before,
                        colors@,
                        count_on_stack as nat,
                        at as int,
                        color,
                        allocatable@,
                    );
                }
                colors.insert(reg.index, Operand::Register(color));
                todo.remove(at);
                proof {
                    assert(todo@ == todo_before.remove(at as int));
                    assert forall|end: Map<u32, Operand>, slots: nat| #[trigger]
                        leads(*graph, todo@, colors@, count_on_stack as nat, end, slots) implies leads(
                        *graph,
                        todo_before,
                        colors_before,
                        count_before,
                        end,
                        slots,
                    ) by {
                        assert(takes(*graph, colors_before, todo_before, at as int, color));
                    }
                }
            },
            None => {
                proof {
                    lemma_spill(*graph, todo@, allocatable@, colors@, count_on_stack);
                    lemma_takes_none(
                        *graph,
                        todo@,
                        allocatable@,
                        colors@,
                        count_on_stack as nat,
                    );
                }
                let spilled = todo.remove(0);
                colors.insert(spilled.index, Operand::Spilled(count_on_stack));
                count_on_stack = count_on_stack + 1;
                proof {
                    assert(todo@ == todo_before.remove(0));
                    assert forall|end: Map<u32, Operand>, slots: nat| #[trigger]
                        leads(*graph, todo@, colors@, count_on_stack as nat, end, slots) implies leads(
                        *graph,
                        todo_before,
                        colors_before,
                        count_before,
                        end,
                        slots,
                    ) by {
                        assert(finds_none(*graph, colors_before, todo_before, false, false));
                    }
                }
            },
        }
    }
    let coloring = Coloring::new(colors, count_on_stack);
    proof {
        assert(leads(
            *graph,
            todo@,
            colors@,
            count_on_stack as nat,
            colors@,
            count_on_stack as nat,
        ));
        assert forall|p: PseudoRegister| #[trigger]
            coloring.colored(p) <==> graph.has(Register::Pseudo(p)) by {
            if todo@.contains(p) {
                let j = choose|j: int| 0 <= j < todo@.len() && todo@[j] == p;
            }
        }
    }
    Ok(coloring)
}

} // verus!

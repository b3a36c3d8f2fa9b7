use crate::ertl::structure::register::{PhysicalRegister, Register};
use crate::interference::structure::InterferenceGraph;
use crate::ltl::structure::Operand;
use crate::rtl::structure::register::PseudoRegister;
use crate::utils::OrdinalMap;
use vstd::prelude::*;

verus! {

/// The colors that each uncolored pseudo-register may still get, keyed by
/// its ordinal.
pub type Candidates = OrdinalMap<Vec<PhysicalRegister>>;

/// `c` is among the candidates of `p`.
pub open spec fn candidate(
    allocatable: Map<u32, Vec<PhysicalRegister>>,
    p: PseudoRegister,
    c: PhysicalRegister,
) -> bool {
    allocatable.contains_key(p.index) && allocatable[p.index]@.contains(c)
}

/// No color stands twice among the candidates of a register.
pub open spec fn distinct(allocatable: Map<u32, Vec<PhysicalRegister>>) -> bool {
    forall|k: u32| allocatable.contains_key(k) ==> (#[trigger] allocatable[k])@.no_duplicates()
}

/// `p` has exactly one candidate left.
pub open spec fn single(allocatable: Map<u32, Vec<PhysicalRegister>>, p: PseudoRegister) -> bool {
    allocatable.contains_key(p.index) && allocatable[p.index]@.len() == 1
}

/// The register `q` has the color `c` already: it is the machine register
/// `c`, or a pseudo-register colored `c`.
pub open spec fn has_color(colors: Map<u32, Operand>, q: Register, c: PhysicalRegister) -> bool {
    match q {
        Register::Pseudo(other) => colors.contains_key(other.index) && colors[other.index]
            == Operand::Register(c),
        Register::Physical(physical) => physical == c,
    }
}

/// `p` has a preference edge to a register that has the color `c` already.
pub open spec fn hinted(
    graph: InterferenceGraph,
    colors: Map<u32, Operand>,
    p: PseudoRegister,
    c: PhysicalRegister,
) -> bool {
    exists|q: Register| #[trigger] graph.prefers(Register::Pseudo(p), q) && has_color(colors, q, c)
}

/// `c` is a candidate of `p`, the only one where `single_only`.
pub open spec fn plain_rule(
    allocatable: Map<u32, Vec<PhysicalRegister>>,
    single_only: bool,
    p: PseudoRegister,
    c: PhysicalRegister,
) -> bool {
    (single_only ==> single(allocatable, p)) && candidate(allocatable, p, c)
}

/// `c` is a candidate of `p`, the only one where `single_only`, and a
/// preference of `p` has it.
pub open spec fn hinted_rule(
    allocatable: Map<u32, Vec<PhysicalRegister>>,
    graph: InterferenceGraph,
    colors: Map<u32, Operand>,
    single_only: bool,
    p: PseudoRegister,
    c: PhysicalRegister,
) -> bool {
    plain_rule(allocatable, single_only, p, c) && hinted(graph, colors, p, c)
}

/// What a search over `todo` by the plain rule returns: the first register
/// of `todo` for which the rule allows some color, with a color that it
/// allows for it; `None` where it allows none for any.
pub open spec fn first_plain(
    todo: Seq<PseudoRegister>,
    found: Option<(PseudoRegister, PhysicalRegister)>,
    allocatable: Map<u32, Vec<PhysicalRegister>>,
    single_only: bool,
) -> bool {
    match found {
        Some((p, c)) => exists|i: int|
            0 <= i < todo.len() && #[trigger] todo[i] == p && plain_rule(
                allocatable,
                single_only,
                p,
                c,
            ) && forall|j: int, other: PhysicalRegister|
                0 <= j < i ==> !#[trigger] plain_rule(allocatable, single_only, todo[j], other),
        None => forall|i: int, other: PhysicalRegister|
            0 <= i < todo.len() ==> !#[trigger] plain_rule(
                allocatable,
                single_only,
                todo[i],
                other,
            ),
    }
}

/// What a search over `todo` by the rule with a preference returns: the
/// first register of `todo` for which the rule allows some color, with a
/// color that it allows for it; `None` where it allows none for any.
pub open spec fn first_hinted(
    todo: Seq<PseudoRegister>,
    found: Option<(PseudoRegister, PhysicalRegister)>,
    allocatable: Map<u32, Vec<PhysicalRegister>>,
    graph: InterferenceGraph,
    colors: Map<u32, Operand>,
    single_only: bool,
) -> bool {
    match found {
        Some((p, c)) => exists|i: int|
            0 <= i < todo.len() && #[trigger] todo[i] == p && hinted_rule(
                allocatable,
                graph,
                colors,
                single_only,
                p,
                c,
            ) && forall|j: int, other: PhysicalRegister|
                0 <= j < i ==> !#[trigger] hinted_rule(
                    allocatable,
                    graph,
                    colors,
                    single_only,
                    todo[j],
                    other,
                ),
        None => forall|i: int, other: PhysicalRegister|
            0 <= i < todo.len() ==> !#[trigger] hinted_rule(
                allocatable,
                graph,
                colors,
                single_only,
                todo[i],
                other,
            ),
    }
}

/// Every register of `todo` is a vertex and has its candidates.
pub open spec fn ready(
    todo: Seq<PseudoRegister>,
    allocatable: Map<u32, Vec<PhysicalRegister>>,
    graph: InterferenceGraph,
) -> bool {
    forall|i: int|
        0 <= i < todo.len() ==> allocatable.contains_key((#[trigger] todo[i]).index) && graph.has(
            Register::Pseudo(todo[i]),
        )
}

/// In a graph where no vertex stands twice, the edges of a vertex are those
/// of the one place where it stands.
pub proof fn lemma_arc_exact(graph: InterferenceGraph, i: int)
    requires
        graph.wf(),
        0 <= i < graph.arcs@.len(),
    ensures
        forall|b: Register|
            graph.prefers(graph.arcs@[i].0, b) <==> graph.arcs@[i].1.prefs@.contains(b),
        forall|b: Register|
            graph.interferes(graph.arcs@[i].0, b) <==> graph.arcs@[i].1.intfs@.contains(b),
{
    let a = graph.arcs@[i].0;
    assert forall|b: Register| graph.prefers(a, b) <==> graph.arcs@[i].1.prefs@.contains(b) by {
        if graph.prefers(a, b) {
            let k = choose|k: int|
                0 <= k < graph.arcs@.len() && (#[trigger] graph.arcs@[k]).0 == a
                    && graph.arcs@[k].1.prefs@.contains(b);
            assert(k == i);
        }
    }
    assert forall|b: Register| graph.interferes(a, b) <==> graph.arcs@[i].1.intfs@.contains(b) by {
        if graph.interferes(a, b) {
            let k = choose|k: int|
                0 <= k < graph.arcs@.len() && (#[trigger] graph.arcs@[k]).0 == a
                    && graph.arcs@[k].1.intfs@.contains(b);
            assert(k == i);
        }
    }
}

/// Whether `color` is among `colors`.
pub fn member_color(colors: &Vec<PhysicalRegister>, color: PhysicalRegister) -> (r: bool)
    ensures
        r == colors@.contains(color),
{
    let mut i: usize = 0;
    while i < colors.len()
        invariant
            i <= colors@.len(),
            forall|k: int| 0 <= k < i ==> colors@[k] != color,
        decreases colors@.len() - i,
    {
        if colors[i] == color {
            return true;
        }
        i = i + 1;
    }
    false
}

/// The color that `q` has already, if it has a machine register for color.
pub fn color_in_register(colors: &OrdinalMap<Operand>, q: Register) -> (r: Option<PhysicalRegister>)
    ensures
        forall|c: PhysicalRegister| has_color(colors@, q, c) <==> r == Some(c),
{
    match q {
        Register::Pseudo(other) => match colors.get(other.index) {
            Some(Operand::Register(c)) => Some(*c),
            _ => None,
        },
        Register::Physical(physical) => Some(physical),
    }
}

/// A candidate among `candidates` that a preference of `p` has already;
/// `None` where there is none.
pub fn find_hint(
    candidates: &Vec<PhysicalRegister>,
    graph: &InterferenceGraph,
    colors: &OrdinalMap<Operand>,
    p: PseudoRegister,
) -> (r: Option<PhysicalRegister>)
    requires
        graph.wf(),
        graph.has(Register::Pseudo(p)),
    ensures
        match r {
            Some(c) => candidates@.contains(c) && hinted(*graph, colors@, p, c),
            None => forall|c: PhysicalRegister|
                !(candidates@.contains(c) && hinted(*graph, colors@, p, c)),
        },
{
    match graph.position(Register::Pseudo(p)) {
        Some(at) => {
            proof {
                lemma_arc_exact(*graph, at as int);
            }
            let prefs = &graph.arcs[at].1.prefs;
            let mut k: usize = 0;
            while k < prefs.len()
                invariant
                    k <= prefs@.len(),
                    at < graph.arcs@.len(),
                    prefs@ == graph.arcs@[at as int].1.prefs@,
                    forall|b: Register|
                        graph.prefers(Register::Pseudo(p), b) <==> prefs@.contains(b),
                    forall|q: int, c: PhysicalRegister|
                        0 <= q < k ==> !(candidates@.contains(c) && #[trigger] has_color(
                            colors@,
                            prefs@[q],
                            c,
                        )),
                decreases prefs@.len() - k,
            {
                let q = prefs[k];
                match color_in_register(colors, q) {
                    Some(c) => {
                        if member_color(candidates, c) {
                            proof {
                                assert(prefs@.contains(prefs@[k as int]));
                                assert(graph.prefers(Register::Pseudo(p), q));
                            }
                            return Some(c);
                        }
                    },
                    None => {},
                }
                k = k + 1;
            }
            proof {
                assert forall|c: PhysicalRegister|
                    !(candidates@.contains(c) && hinted(*graph, colors@, p, c)) by {
                    if candidates@.contains(c) && hinted(*graph, colors@, p, c) {
                        let q = choose|q: Register| #[trigger]
                            graph.prefers(Register::Pseudo(p), q) && has_color(colors@, q, c);
                        let w = choose|w: int| 0 <= w < prefs@.len() && prefs@[w] == q;
                        assert(has_color(colors@, prefs@[w], c));
                    }
                }
            }
            None
        },
        None => {
            proof {
                assert(false);
            }
            None
        },
    }
}

/// The first register of `todo` with a candidate that a preference of it
/// has already, with such a candidate; where `single_only`, only registers
/// with one candidate left count.
pub fn search_hinted(
    todo: &Vec<PseudoRegister>,
    allocatable: &Candidates,
    interference_graph: &InterferenceGraph,
    current_allocation: &OrdinalMap<Operand>,
    single_only: bool,
) -> (r: Option<(PseudoRegister, PhysicalRegister)>)
    requires
        interference_graph.wf(),
        ready(todo@, allocatable@, *interference_graph),
    ensures
        first_hinted(
            todo@,
            r,
            allocatable@,
            *interference_graph,
            current_allocation@,
            single_only,
        ),
{
    let mut i: usize = 0;
    while i < todo.len()
        invariant
            i <= todo@.len(),
            interference_graph.wf(),
            ready(todo@, allocatable@, *interference_graph),
            forall|j: int, other: PhysicalRegister|
                0 <= j < i ==> !#[trigger] hinted_rule(
                    allocatable@,
                    *interference_graph,
                    current_allocation@,
                    single_only,
                    todo@[j],
                    other,
                ),
        decreases todo@.len() - i,
    {
        let reg = todo[i];
        match allocatable.get(reg.index) {
            Some(candidates) => {
                if !single_only || candidates.len() == 1 {
                    match find_hint(candidates, interference_graph, current_allocation, reg) {
                        Some(color) => {
                            assert(todo@[i as int] == reg);
                            return Some((reg, color));
                        },
                        None => {},
                    }
                }
            },
            None => {},
        }
        i = i + 1;
    }
    None
}

/// The first register of `todo` that has a candidate left, with one of its
/// candidates; where `single_only`, only registers with one candidate left
/// count.
pub fn search_plain(todo: &Vec<PseudoRegister>, allocatable: &Candidates, single_only: bool) -> (r:
    Option<(PseudoRegister, PhysicalRegister)>)
    ensures
        first_plain(todo@, r, allocatable@, single_only),
{
    let mut i: usize = 0;
    while i < todo.len()
        invariant
            i <= todo@.len(),
            forall|j: int, other: PhysicalRegister|
                0 <= j < i ==> !#[trigger] plain_rule(allocatable@, single_only, todo@[j], other),
        decreases todo@.len() - i,
    {
        let reg = todo[i];
        match allocatable.get(reg.index) {
            Some(candidates) => {
                if candidates.len() == 1 || (!single_only && candidates.len() > 0) {
                    assert(candidates@.contains(candidates@[0]));
                    assert(todo@[i as int] == reg);
                    return Some((reg, candidates[0]));
                }
            },
            None => {},
        }
        i = i + 1;
    }
    None
}

/// The first register of `todo` that has one candidate left, which a
/// preference of it has already; with that candidate.
pub fn search_one_color_with_preference(
    todo: &Vec<PseudoRegister>,
    allocatable: &Candidates,
    interference_graph: &InterferenceGraph,
    current_allocation: &OrdinalMap<Operand>,
) -> (r: Option<(PseudoRegister, PhysicalRegister)>)
    requires
        interference_graph.wf(),
        ready(todo@, allocatable@, *interference_graph),
    ensures
        first_hinted(todo@, r, allocatable@, *interference_graph, current_allocation@, true),
{
    search_hinted(todo, allocatable, interference_graph, current_allocation, true)
}

/// The first register of `todo` that has one candidate left, with that
/// candidate.
pub fn search_one_color(todo: &Vec<PseudoRegister>, allocatable: &Candidates) -> (r: Option<
    (PseudoRegister, PhysicalRegister),
>)
    ensures
        first_plain(todo@, r, allocatable@, true),
{
    search_plain(todo, allocatable, true)
}

/// The first register of `todo` with a candidate that a preference of it has
/// already; with such a candidate.
pub fn search_pref_with_known_color(
    todo: &Vec<PseudoRegister>,
    allocatable: &Candidates,
    interference_graph: &InterferenceGraph,
    current_allocation: &OrdinalMap<Operand>,
) -> (r: Option<(PseudoRegister, PhysicalRegister)>)
    requires
        interference_graph.wf(),
        ready(todo@, allocatable@, *interference_graph),
    ensures
        first_hinted(todo@, r, allocatable@, *interference_graph, current_allocation@, false),
{
    search_hinted(todo, allocatable, interference_graph, current_allocation, false)
}

/// The first register of `todo` that has a candidate left, with one of its
/// candidates.
pub fn search_any_color(todo: &Vec<PseudoRegister>, allocatable: &Candidates) -> (r: Option<
    (PseudoRegister, PhysicalRegister),
>)
    ensures
        first_plain(todo@, r, allocatable@, false),
{
    search_plain(todo, allocatable, false)
}

} // verus!

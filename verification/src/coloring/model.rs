use crate::coloring::free_for;
use crate::coloring::search::hinted;
use crate::ertl::structure::register::{PhysicalRegister, Register};
use crate::interference::structure::InterferenceGraph;
use crate::ltl::structure::Operand;
use crate::rtl::structure::register::PseudoRegister;
use vstd::prelude::*;

verus! {

/// Exactly one color is free for `p`.
pub open spec fn only_choice(
    graph: InterferenceGraph,
    colors: Map<u32, Operand>,
    p: PseudoRegister,
) -> bool {
    exists|c: PhysicalRegister|
        #![trigger free_for(graph, colors, p, c)]
        free_for(graph, colors, p, c) && forall|d: PhysicalRegister|
            free_for(graph, colors, p, d) ==> d == c
}

/// A rule allows the color `c` for `p`: the color is free for `p`; it is
/// the only one, where the rule asks for that; and a preference of `p` has
/// it already, where the rule asks for that.
pub open spec fn allows(
    graph: InterferenceGraph,
    colors: Map<u32, Operand>,
    single_only: bool,
    with_hint: bool,
    p: PseudoRegister,
    c: PhysicalRegister,
) -> bool {
    &&& free_for(graph, colors, p, c)
    &&& single_only ==> only_choice(graph, colors, p)
    &&& with_hint ==> hinted(graph, colors, p, c)
}

/// `todo[i]` is the first register of `todo` for which the rule allows a
/// color, and it allows `c` for it.
pub open spec fn finds(
    graph: InterferenceGraph,
    colors: Map<u32, Operand>,
    todo: Seq<PseudoRegister>,
    single_only: bool,
    with_hint: bool,
    i: int,
    c: PhysicalRegister,
) -> bool {
    &&& 0 <= i < todo.len()
    &&& allows(graph, colors, single_only, with_hint, todo[i], c)
    &&& forall|j: int, other: PhysicalRegister|
        0 <= j < i ==> !#[trigger] allows(graph, colors, single_only, with_hint, todo[j], other)
}

/// The rule allows no color for any register of `todo`.
pub open spec fn finds_none(
    graph: InterferenceGraph,
    colors: Map<u32, Operand>,
    todo: Seq<PseudoRegister>,
    single_only: bool,
    with_hint: bool,
) -> bool {
    forall|j: int, other: PhysicalRegister|
        0 <= j < todo.len() ==> !#[trigger] allows(
            graph,
            colors,
            single_only,
            with_hint,
            todo[j],
            other,
        )
}

/// The four rules, tried in turn, give `todo[i]` the color `c`: the first
/// register with one free color that a preference of it has; else the first
/// with one free color; else the first with a free color that a preference
/// of it has; else the first with a free color.
pub open spec fn takes(
    graph: InterferenceGraph,
    colors: Map<u32, Operand>,
    todo: Seq<PseudoRegister>,
    i: int,
    c: PhysicalRegister,
) -> bool {
    ||| finds(graph, colors, todo, true, true, i, c)
    ||| {
        &&& finds_none(graph, colors, todo, true, true)
        &&& finds(graph, colors, todo, true, false, i, c)
    }
    ||| {
        &&& finds_none(graph, colors, todo, true, true)
        &&& finds_none(graph, colors, todo, true, false)
        &&& finds(graph, colors, todo, false, true, i, c)
    }
    ||| {
        &&& finds_none(graph, colors, todo, true, true)
        &&& finds_none(graph, colors, todo, true, false)
        &&& finds_none(graph, colors, todo, false, true)
        &&& finds(graph, colors, todo, false, false, i, c)
    }
}

/// From the registers `todo` still to color, the colors `colors` given so
/// far and `count` frame slots in use, the coloring loop may end with the
/// colors `end` and `slots` frame slots. At each step the rules give a
/// register a color; where no register has a free color, the first one
/// gets the next frame slot.
pub open spec fn leads(
    graph: InterferenceGraph,
    todo: Seq<PseudoRegister>,
    colors: Map<u32, Operand>,
    count: nat,
    end: Map<u32, Operand>,
    slots: nat,
) -> bool
    decreases todo.len(),
{
    if todo.len() == 0 {
        end == colors && slots == count
    } else {
        ||| exists|i: int, c: PhysicalRegister|
            #![trigger takes(graph, colors, todo, i, c)]
            0 <= i < todo.len() && takes(graph, colors, todo, i, c) && leads(
                graph,
                todo.remove(i),
                colors.insert(todo[i].index, Operand::Register(c)),
                count,
                end,
                slots,
            )
        ||| {
            &&& finds_none(graph, colors, todo, false, false)
            &&& leads(
                graph,
                todo.remove(0),
                colors.insert(todo[0].index, Operand::Spilled(count as usize)),
                count + 1,
                end,
                slots,
            )
        }
    }
}

/// `todo` holds the pseudo-registers of `graph`, by ascending ordinal.
pub open spec fn worklist(graph: InterferenceGraph, todo: Seq<PseudoRegister>) -> bool {
    &&& forall|i: int, j: int| 0 <= i < j < todo.len() ==> todo[i].index < todo[j].index
    &&& forall|p: PseudoRegister| todo.contains(p) <==> graph.has(Register::Pseudo(p))
}

/// The colors `end` with `slots` frame slots are what the coloring loop may
/// give for `graph`, started on all its pseudo-registers with no color
/// given.
pub open spec fn colored_by_rules(
    graph: InterferenceGraph,
    end: Map<u32, Operand>,
    slots: nat,
) -> bool {
    exists|todo: Seq<PseudoRegister>|
        #![trigger worklist(graph, todo)]
        worklist(graph, todo) && leads(graph, todo, Map::empty(), 0, end, slots)
}

} // verus!

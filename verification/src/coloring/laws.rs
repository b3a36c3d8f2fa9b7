use crate::coloring::proper;
use crate::coloring::structure::Coloring;
use crate::ertl::structure as ertl;
use crate::ertl::structure::register::Register;
use crate::ertl::structure::Label;
use crate::interference::structure::InterferenceGraph;
use crate::interference::{appears, appears_at, built};
use crate::liveness::model::{analysed, defs_model, uses_model};
use crate::liveness::structure::InfoView;
use crate::ltl::model::color_model;
use crate::rtl::structure::register::PseudoRegister;
use vstd::prelude::*;

verus! {

/// Under a proper coloring of the interference graph of a function, the
/// pseudo-registers that have a color are those that appear in the
/// function. The colors are a map, so each of them has one color.
pub proof fn lemma_registers_colored(
    infos: Map<Label, InfoView>,
    graph: InterferenceGraph,
    coloring: Coloring,
    p: PseudoRegister,
)
    requires
        built(infos, graph),
        proper(graph, coloring),
    ensures
        coloring.colored(p) <==> appears(infos, Register::Pseudo(p)),
{
}

/// Under a proper coloring of the interference graph of the liveness of a
/// function, each register that an instruction of the function writes or
/// reads has a place: lowering never misses a color.
pub proof fn lemma_operands_colored(
    body: Map<Label, ertl::Instr>,
    infos: Map<Label, InfoView>,
    graph: InterferenceGraph,
    coloring: Coloring,
    label: Label,
    r: Register,
)
    requires
        analysed(body, infos),
        built(infos, graph),
        proper(graph, coloring),
        body.contains_key(label),
        defs_model(body[label]).contains(r) || uses_model(body[label]).contains(r),
    ensures
        color_model(coloring.colors@, r) is Ok,
{
    match r {
        Register::Pseudo(p) => {
            assert(infos.contains_key(label));
            assert(appears_at(infos[label], r));
            assert(appears(infos, r));
            assert(coloring.colored(p));
        },
        Register::Physical(_) => {},
    }
}

} // verus!

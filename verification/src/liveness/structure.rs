use crate::ertl::structure::register::Register;
use crate::ertl::structure::{Instr, Label};
use crate::utils::LabelMap;
use vstd::prelude::*;

verus! {

/// What the analysis knows of one instruction. `pred`, `ins` and `outs` are
/// sets: each holds its members once, in no particular order.
#[derive(Debug)]
pub struct LivenessInfo {
    pub instr: Instr,
    pub succ: Vec<Label>,
    pub pred: Vec<Label>,
    pub defs: Vec<Register>,
    pub uses: Vec<Register>,
    pub ins: Vec<Register>,
    pub outs: Vec<Register>,
}

#[derive(Debug)]
pub struct LivenessGraph {
    pub infos: LabelMap<LivenessInfo>,
}

/// The result for one instruction as a mathematical value.
pub ghost struct InfoView {
    pub instr: Instr,
    pub succ: Seq<Label>,
    pub pred: Set<Label>,
    pub defs: Seq<Register>,
    pub uses: Seq<Register>,
    pub ins: Set<Register>,
    pub outs: Set<Register>,
}

impl View for LivenessInfo {
    type V = InfoView;

    open spec fn view(&self) -> InfoView {
        InfoView {
            instr: self.instr,
            succ: self.succ@,
            pred: self.pred@.to_set(),
            defs: self.defs@,
            uses: self.uses@,
            ins: self.ins@.to_set(),
            outs: self.outs@.to_set(),
        }
    }
}

impl View for LivenessGraph {
    type V = Map<Label, InfoView>;

    open spec fn view(&self) -> Map<Label, InfoView> {
        Map::new(|l: Label| self.infos@.contains_key(l), |l: Label| self.infos@[l]@)
    }
}

impl LivenessInfo {
    pub fn new(
        instr: Instr,
        succ: Vec<Label>,
        pred: Vec<Label>,
        defs: Vec<Register>,
        uses: Vec<Register>,
        ins: Vec<Register>,
        outs: Vec<Register>,
    ) -> (r: LivenessInfo)
        ensures
            r.instr == instr,
            r.succ == succ,
            r.pred == pred,
            r.defs == defs,
            r.uses == uses,
            r.ins == ins,
            r.outs == outs,
    {
        LivenessInfo { instr, succ, pred, defs, uses, ins, outs }
    }
}

} // verus!

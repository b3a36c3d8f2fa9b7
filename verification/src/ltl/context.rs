use crate::coloring::structure::Coloring;
use crate::ertl::structure::register::Register;
use crate::ertl::structure::Label;
use crate::ltl::error::LtlError;
use crate::ltl::model::{color_model, put, Flow};
use crate::ltl::structure::{Instr, Operand};
use crate::rtl::structure::Supply;
use crate::utils::{LabelMap, State};
use vstd::prelude::*;

verus! {

/// The coloring of a function and the LTL graph built so far.
pub struct Context {
    pub coloring: Coloring,
    pub graph: LabelMap<Instr>,
}

impl Context {
    pub fn new(coloring: Coloring, graph: LabelMap<Instr>) -> (r: Context)
        ensures
            r.coloring == coloring,
            r.graph == graph,
    {
        Context { coloring, graph }
    }

    /// The graph and the counters as one value of the model.
    pub open spec fn state(&self, supply: Supply) -> Flow {
        State { instrs: self.graph@, supply }
    }

    /// Puts `instr` at a fresh label, or fails with `Exhausted`.
    pub fn insert(&mut self, supply: &mut Supply, instr: Instr) -> (r: Result<Label, LtlError>)
        ensures
            final(self).coloring == old(self).coloring,
            match put(old(self).state(*old(supply)), instr) {
                Ok((state, label)) => r == Ok::<Label, LtlError>(label) && final(self).state(
                    *final(supply),
                ) == state,
                Err(error) => r == Err::<Label, LtlError>(error),
            },
    {
        match self.graph.insert(supply, instr) {
            Some(label) => Ok(label),
            None => Err(LtlError::Exhausted),
        }
    }

    /// Puts `instr` at `label`, replacing what stood there.
    pub fn insert_at_label(&mut self, label: Label, instr: Instr)
        ensures
            final(self).coloring == old(self).coloring,
            final(self).graph@ == old(self).graph@.insert(label, instr),
    {
        self.graph.insert_at_label(label, instr);
    }

    /// Where the value of `reg` lives: a machine register in itself, a
    /// pseudo-register in its color. It fails where a pseudo-register has no
    /// color.
    pub fn color(&self, reg: &Register) -> (r: Result<Operand, LtlError>)
        ensures
            r == color_model(self.coloring.colors@, *reg),
    {
        match reg {
            Register::Pseudo(pseudo) => match self.coloring.get(*pseudo) {
                Some(color) => Ok(color),
                None => Err(LtlError::MissingRegisterColor(*pseudo)),
            },
            Register::Physical(physical) => Ok(Operand::Register(*physical)),
        }
    }
}

} // verus!

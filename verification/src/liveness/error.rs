use crate::ertl::structure::Label;
use vstd::prelude::*;

verus! {

#[derive(Debug, Clone, Copy, PartialEq, Eq, Structural)]
pub enum LivenessError {
    /// Control may go to a label that has no instruction.
    UnknownLabel(Label),
}

} // verus!

use crate::ertl::structure::Label;
use vstd::prelude::*;

verus! {

#[derive(Debug, Clone, Copy, PartialEq, Eq, Structural)]
pub enum LinearisingError {
    /// Control reaches a label that has no instruction.
    UnknownLabel(Label),
    /// A frame slot lies further from `Rbp` than a displacement can say.
    FrameTooLarge,
    /// A division whose destination is not `Rax`.
    DivisionOutsideRax,
}

} // verus!

use crate::coloring::ColoringError;
use crate::interference::InterferenceError;
use crate::liveness::error::LivenessError;
use crate::rtl::structure::register::PseudoRegister;
use vstd::prelude::*;

verus! {

#[derive(Debug, Clone, Copy, PartialEq, Eq, Structural)]
pub enum LtlError {
    /// The coloring has no color for a pseudo-register of the function.
    MissingRegisterColor(PseudoRegister),
    LivenessError(LivenessError),
    InterferenceError(InterferenceError),
    ColoringError(ColoringError),
    /// A frame slot lies further from `Rbp` than a displacement can say.
    FrameTooLarge,
    /// The labels are used up.
    Exhausted,
}

} // verus!

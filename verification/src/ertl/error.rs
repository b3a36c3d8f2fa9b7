use crate::common::Ident;
use vstd::prelude::*;

verus! {

#[derive(Debug, Clone, Copy, PartialEq, Eq, Structural)]
pub enum ErtlError {
    /// The labels or the pseudo-registers are used up.
    Exhausted,
    /// A call or a function of the given name has more than 255 arguments.
    TooManyArguments(Ident),
}

} // verus!

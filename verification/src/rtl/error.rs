use crate::rtl::structure::BlockIdent;
use vstd::prelude::*;

verus! {

#[derive(Debug, Clone, Copy, PartialEq, Eq, Structural)]
pub enum RtlError {
    /// A variable is used that has no register.
    VarNotFound(BlockIdent),
    /// Two variables of one function share a scoped name.
    DuplicateBlockIdent(BlockIdent),
    /// The labels or the pseudo-registers are used up.
    Exhausted,
}

} // verus!

use crate::rtl::structure::{Fresh, Supply};
use vstd::prelude::*;

verus! {

/// An abstract register, of which there are as many as a function needs.
#[derive(Clone, Copy, Debug, PartialEq, Eq, Hash, PartialOrd, Ord, Structural)]
pub struct PseudoRegister {
    pub index: u32,
}

impl Fresh for PseudoRegister {
    open spec fn issue(supply: Supply) -> Option<(PseudoRegister, Supply)> {
        if supply.registers < u32::MAX {
            Some(
                (
                    PseudoRegister { index: supply.registers },
                    Supply { labels: supply.labels, registers: (supply.registers + 1) as u32 },
                ),
            )
        } else {
            None
        }
    }

    fn fresh(supply: &mut Supply) -> (r: Option<PseudoRegister>) {
        if supply.registers < u32::MAX {
            let register = PseudoRegister { index: supply.registers };
            supply.registers = supply.registers + 1;
            Some(register)
        } else {
            None
        }
    }
}

} // verus!

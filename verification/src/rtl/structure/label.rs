use crate::rtl::structure::{Fresh, Supply};
use vstd::prelude::*;

verus! {

/// A point of the control-flow graph. Two labels are the same point exactly
/// when their ordinals are equal.
#[derive(Clone, Copy, Debug, PartialEq, Eq, Hash, PartialOrd, Ord, Structural)]
pub struct Label {
    pub index: u32,
}

impl Fresh for Label {
    open spec fn issue(supply: Supply) -> Option<(Label, Supply)> {
        if supply.labels < u32::MAX {
            Some(
                (
                    Label { index: supply.labels },
                    Supply { labels: (supply.labels + 1) as u32, registers: supply.registers },
                ),
            )
        } else {
            None
        }
    }

    fn fresh(supply: &mut Supply) -> (r: Option<Label>) {
        if supply.labels < u32::MAX {
            let label = Label { index: supply.labels };
            supply.labels = supply.labels + 1;
            Some(label)
        } else {
            None
        }
    }
}

} // verus!

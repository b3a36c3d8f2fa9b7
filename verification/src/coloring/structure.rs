use crate::ltl::structure::Operand;
use crate::rtl::structure::register::PseudoRegister;
use crate::utils::OrdinalMap;
use vstd::prelude::*;

verus! {

pub type Color = Operand;

/// The color of each pseudo-register, keyed by its ordinal, and the number
/// of frame slots that the colors use.
#[derive(Debug)]
pub struct Coloring {
    pub colors: OrdinalMap<Color>,
    pub count_on_stack: usize,
}

impl Coloring {
    pub fn new(colors: OrdinalMap<Color>, count_on_stack: usize) -> (r: Coloring)
        ensures
            r.colors == colors,
            r.count_on_stack == count_on_stack,
    {
        Coloring { colors, count_on_stack }
    }

    /// `register` has a color.
    pub open spec fn colored(&self, register: PseudoRegister) -> bool {
        self.colors@.contains_key(register.index)
    }

    /// The color of `register`.
    pub open spec fn color_of(&self, register: PseudoRegister) -> Color {
        self.colors@[register.index]
    }

    /// The color of `register`, if it has one.
    pub fn get(&self, register: PseudoRegister) -> (r: Option<Color>)
        ensures
            r == if self.colored(register) {
                Some(self.color_of(register))
            } else {
                None
            },
    {
        match self.colors.get(register.index) {
            Some(color) => Some(*color),
            None => None,
        }
    }
}

} // verus!

use crate::common::Value;
use crate::rtl::interpreter::context::{Context, ContextView};
use crate::rtl::interpreter::error::RtlInterpreterError;
use crate::rtl::interpreter::model::char_of;
use vstd::prelude::*;

verus! {

/// The runtime primitive that allocates a block.
#[derive(Debug, Clone, Copy, PartialEq, Eq, Structural)]
pub struct Malloc {}

/// The runtime primitive that writes a character.
#[derive(Debug, Clone, Copy, PartialEq, Eq, Structural)]
pub struct Putchar {}

impl Malloc {
    pub fn new() -> (r: Malloc) {
        Malloc {  }
    }

    /// Allocates an empty block and hands back its address.
    pub fn interp_fun(&self, context: &mut Context) -> (r: Result<Value, RtlInterpreterError>)
        ensures
            match r {
                Ok(address) => old(context)@.memory.len() < 0x7fff_ffff_ffff_fff0 && address
                    == old(context)@.memory.len() + 1 && final(context)@ == (ContextView {
                    memory: old(context)@.memory.push(Seq::empty()),
                    ..old(context)@
                }),
                Err(error) => old(context)@.memory.len() >= 0x7fff_ffff_ffff_fff0 && error
                    == RtlInterpreterError::Other && final(context)@ == old(context)@,
            },
    {
        let n: u64 = context.memory.len() as u64;
        if n >= 0x7fff_ffff_ffff_fff0 {
            return Err(RtlInterpreterError::Other);
        }
        match context.allocate() {
            Some(address) => Ok(address),
            None => Err(RtlInterpreterError::Other),
        }
    }
}

impl Putchar {
    pub fn new() -> (r: Putchar) {
        Putchar {  }
    }

    /// Writes the character of the low byte of `value`, and hands back 0.
    pub fn interp_fun(&self, context: &mut Context, value: Value) -> (r: Value)
        ensures
            r == 0,
            final(context)@ == (ContextView {
                stdout: old(context)@.stdout.push(char_of(value)),
                ..old(context)@
            }),
    {
        let byte: u8 = #[verifier::truncate]
        (value as u8);
        context.stdout.putchar(byte as char);
        assert(context@.frames =~= old(context)@.frames);
        assert(context@.memory =~= old(context)@.memory);
        0
    }
}

} // verus!

use crate::common::{Ident, Stdout, Value};
use crate::rtl::interpreter::model::char_of;
use crate::typer::context::PUTCHAR_ARGUMENT;
use crate::typer::interpreter::context::{InterpreterContext, MemoryStruct, TyperInterpreterFun};
use crate::typer::interpreter::error::TypInterpreterError;
use crate::typer::structure::BlockIdent;
use vstd::prelude::*;

verus! {

/// The runtime primitive that allocates a struct.
#[derive(Debug, Clone, Copy, PartialEq, Eq, Structural)]
pub struct Malloc {}

/// The runtime primitive that writes a character.
#[derive(Debug, Clone, Copy, PartialEq, Eq, Structural)]
pub struct Putchar {}

impl Putchar {
    pub fn new() -> (r: Putchar) {
        Putchar {  }
    }
}

impl Malloc {
    pub fn new() -> (r: Malloc) {
        Malloc {  }
    }
}

impl TyperInterpreterFun for Putchar {
    open spec fn written(&self, context: InterpreterContext) -> Seq<char> {
        seq![char_of(context.value(BlockIdent::Arg(0, Ident { id: PUTCHAR_ARGUMENT })))]
    }

    open spec fn allocated(&self) -> nat {
        0
    }

    open spec fn result(&self, context: InterpreterContext, memory: nat) -> Value {
        context.value(BlockIdent::Arg(0, Ident { id: PUTCHAR_ARGUMENT }))
    }

    fn call(&self, context: &InterpreterContext, memory: &mut Vec<MemoryStruct>, stdout: &mut Stdout) -> (r:
        Result<Value, TypInterpreterError>) {
        let value = context.get(BlockIdent::Arg(0, Ident::new(PUTCHAR_ARGUMENT)));
        let byte: u8 = #[verifier::truncate]
        (value as u8);
        stdout.putchar(byte as char);
        assert(stdout@ =~= old(stdout)@ + self.written(*context));
        assert(memory@.take(old(memory)@.len() as int) =~= old(memory)@);
        Ok(value)
    }
}

impl TyperInterpreterFun for Malloc {
    open spec fn written(&self, context: InterpreterContext) -> Seq<char> {
        Seq::empty()
    }

    open spec fn allocated(&self) -> nat {
        1
    }

    open spec fn result(&self, context: InterpreterContext, memory: nat) -> Value {
        (memory + 1) as i64
    }

    fn call(&self, context: &InterpreterContext, memory: &mut Vec<MemoryStruct>, stdout: &mut Stdout) -> (r:
        Result<Value, TypInterpreterError>) {
        let n: u64 = memory.len() as u64;
        if n >= 0x7fff_ffff_ffff_fff0 {
            return Err(TypInterpreterError::OutOfMemory);
        }
        memory.push(MemoryStruct::new());
        assert(stdout@ =~= old(stdout)@ + self.written(*context));
        assert(memory@.take(old(memory)@.len() as int) =~= old(memory)@);
        Ok((n + 1) as i64)
    }
}

} // verus!

use crate::common::{StackOffset, Stdout, Value};
use crate::rtl::interpreter::error::RtlInterpreterError;
use crate::rtl::structure::register::PseudoRegister;
use crate::utils::OrdinalMap;
use vstd::prelude::*;

verus! {

/// What a field or a register holds before it is written.
pub const DEFAULT_VALUE: Value = 0;

/// The state of a run: what was written, the registers of each function
/// that is running, the innermost last, and the allocated blocks. The
/// block of address `a` is `memory[a - 1]`; it holds the fields that were
/// written, each with its value, the last written first.
pub struct Context {
    pub stdout: Stdout,
    pub frames: Vec<OrdinalMap<Value>>,
    pub memory: Vec<Vec<(StackOffset, Value)>>,
}

/// The state of a run as a mathematical value.
pub ghost struct ContextView {
    pub stdout: Seq<char>,
    pub frames: Seq<Map<u32, Value>>,
    pub memory: Seq<Seq<(StackOffset, Value)>>,
}

/// The value of the field at `offset` in `block`: that of the first entry
/// for it, or the default.
pub open spec fn field(block: Seq<(StackOffset, Value)>, offset: StackOffset) -> Value
    decreases block.len(),
{
    if block.len() == 0 {
        DEFAULT_VALUE
    } else if block[0].0 == offset {
        block[0].1
    } else {
        field(block.drop_first(), offset)
    }
}

impl ContextView {
    /// The value of `register` in the innermost frame; the default where it
    /// was not written or there is no frame.
    pub open spec fn get(self, register: PseudoRegister) -> Value {
        if self.frames.len() > 0 && self.frames.last().contains_key(register.index) {
            self.frames.last()[register.index]
        } else {
            DEFAULT_VALUE
        }
    }

    /// The state after `value` has been put into `register`.
    pub open spec fn put(self, register: PseudoRegister, value: Value) -> ContextView {
        if self.frames.len() > 0 {
            ContextView {
                frames: self.frames.update(
                    self.frames.len() - 1,
                    self.frames.last().insert(register.index, value),
                ),
                ..self
            }
        } else {
            self
        }
    }

    /// `address` is the address of an allocated block.
    pub open spec fn allocated(self, address: Value) -> bool {
        1 <= address <= self.memory.len()
    }

    /// The value of the field at `offset` of the block at `address`.
    pub open spec fn load(self, address: Value, offset: StackOffset) -> Value {
        field(self.memory[address - 1], offset)
    }

    /// The state after `value` has been stored at `offset` of the block at
    /// `address`.
    pub open spec fn store(self, address: Value, offset: StackOffset, value: Value) -> ContextView {
        ContextView {
            memory: self.memory.update(
                address - 1,
                seq![(offset, value)] + self.memory[address - 1],
            ),
            ..self
        }
    }
}

impl View for Context {
    type V = ContextView;

    open spec fn view(&self) -> ContextView {
        ContextView {
            stdout: self.stdout@,
            frames: Seq::new(self.frames@.len(), |i: int| self.frames@[i]@),
            memory: Seq::new(self.memory@.len(), |i: int| self.memory@[i]@),
        }
    }
}

impl Context {
    /// A machine that has written nothing, with one empty frame and no
    /// memory.
    pub fn new() -> (r: Context)
        ensures
            r@.stdout == Seq::<char>::empty(),
            r@.frames == seq![Map::<u32, Value>::empty()],
            r@.memory == Seq::<Seq<(StackOffset, Value)>>::empty(),
    {
        let mut frames: Vec<OrdinalMap<Value>> = Vec::new();
        frames.push(OrdinalMap::new());
        let r = Context { stdout: Stdout::new(), frames, memory: Vec::new() };
        assert(r@.frames =~= seq![Map::<u32, Value>::empty()]);
        assert(r@.memory =~= Seq::<Seq<(StackOffset, Value)>>::empty());
        r
    }

    /// Puts `value` into `register` in the innermost frame.
    pub fn put(&mut self, register: &PseudoRegister, value: Value)
        ensures
            final(self)@ == old(self)@.put(*register, value),
    {
        match self.frames.pop() {
            Some(frame) => {
                let mut frame = frame;
                frame.insert(register.index, value);
                self.frames.push(frame);
                assert(self@.frames =~= old(self)@.put(*register, value).frames);
                assert(self@.memory =~= old(self)@.memory);
            },
            None => {
                assert(self@.frames =~= old(self)@.frames);
                assert(self@.memory =~= old(self)@.memory);
            },
        }
    }

    /// The value of `register` in the innermost frame.
    pub fn get(&self, register: &PseudoRegister) -> (r: Value)
        ensures
            r == self@.get(*register),
    {
        let n = self.frames.len();
        if n == 0 {
            return DEFAULT_VALUE;
        }
        match self.frames[n - 1].get(register.index) {
            Some(value) => *value,
            None => DEFAULT_VALUE,
        }
    }

    /// The value of the field at `offset` of the block whose address
    /// `register` holds; it fails where that is no allocated address.
    pub fn load(&self, register: &PseudoRegister, offset: &StackOffset) -> (r: Result<
        Value,
        RtlInterpreterError,
    >)
        ensures
            r == if self@.allocated(self@.get(*register)) {
                Ok::<Value, RtlInterpreterError>(self@.load(self@.get(*register), *offset))
            } else {
                Err::<Value, RtlInterpreterError>(
                    RtlInterpreterError::UnallocatedMemory(self@.get(*register)),
                )
            },
    {
        let address = self.get(register);
        if address < 1 || address as u64 > self.memory.len() as u64 {
            return Err(RtlInterpreterError::UnallocatedMemory(address));
        }
        let block = &self.memory[(address - 1) as usize];
        let mut i: usize = 0;
        assert(block@.skip(0) =~= block@);
        while i < block.len()
            invariant
                i <= block@.len(),
                address == self@.get(*register),
                self@.allocated(address),
                block@ == self@.memory[address - 1],
                field(block@, *offset) == field(block@.skip(i as int), *offset),
            decreases block@.len() - i,
        {
            let (at, value) = block[i];
            proof {
                let rest = block@.skip(i as int);
                assert(rest[0] == block@[i as int]);
                assert(rest.drop_first() =~= block@.skip(i + 1));
            }
            if at == *offset {
                return Ok(value);
            }
            i = i + 1;
        }
        Ok(DEFAULT_VALUE)
    }

    /// Stores `value` at `offset` of the block whose address `register`
    /// holds; it fails, with nothing changed, where that is no allocated
    /// address.
    pub fn store(&mut self, register: &PseudoRegister, offset: &StackOffset, value: &Value) -> (r:
        Result<(), RtlInterpreterError>)
        ensures
            match r {
                Ok(_) => old(self)@.allocated(old(self)@.get(*register)) && final(self)@ == old(
                    self,
                )@.store(old(self)@.get(*register), *offset, *value),
                Err(error) => !old(self)@.allocated(old(self)@.get(*register)) && error
                    == RtlInterpreterError::UnallocatedMemory(old(self)@.get(*register))
                    && final(self)@ == old(self)@,
            },
    {
        let address = self.get(register);
        if address < 1 || address as u64 > self.memory.len() as u64 {
            return Err(RtlInterpreterError::UnallocatedMemory(address));
        }
        let at = (address - 1) as usize;
        let mut block: Vec<(StackOffset, Value)> = Vec::new();
        block.push((*offset, *value));
        let mut i: usize = 0;
        while i < self.memory[at].len()
            invariant
                at < self.memory@.len(),
                *self == *old(self),
                i <= self.memory@[at as int]@.len(),
                block@ == seq![(*offset, *value)] + self.memory@[at as int]@.take(i as int),
            decreases self.memory@[at as int]@.len() - i,
        {
            block.push(self.memory[at][i]);
            assert(self.memory@[at as int]@.take(i + 1) =~= self.memory@[at as int]@.take(
                i as int,
            ).push(self.memory@[at as int]@[i as int]));
            assert(block@ =~= seq![(*offset, *value)] + self.memory@[at as int]@.take(i + 1));
            i = i + 1;
        }
        assert(self.memory@[at as int]@.take(self.memory@[at as int]@.len() as int)
            =~= self.memory@[at as int]@);
        self.memory.set(at, block);
        assert(self@.memory =~= old(self)@.store(address, *offset, *value).memory);
        assert(self@.frames =~= old(self)@.frames);
        Ok(())
    }

    /// Allocates an empty block and returns its address; `None`, with
    /// nothing changed, where the addresses are used up.
    pub fn allocate(&mut self) -> (r: Option<Value>)
        ensures
            r is Some <==> old(self)@.memory.len() < 0x7fff_ffff_ffff_fff0,
            match r {
                Some(address) => address == old(self)@.memory.len() + 1 && final(self)@ == (
                ContextView { memory: old(self)@.memory.push(Seq::empty()), ..old(self)@ }),
                None => final(self)@ == old(self)@,
            },
    {
        let n: u64 = self.memory.len() as u64;
        if n >= 0x7fff_ffff_ffff_fff0 {
            return None;
        }
        self.memory.push(Vec::new());
        assert(self@.memory =~= old(self)@.memory.push(Seq::empty()));
        assert(self@.frames =~= old(self)@.frames);
        Some((n + 1) as i64)
    }

    /// Opens an empty frame for a function that starts to run.
    pub fn enter(&mut self)
        ensures
            final(self)@ == (ContextView {
                frames: old(self)@.frames.push(Map::empty()),
                ..old(self)@
            }),
    {
        self.frames.push(OrdinalMap::new());
        assert(self@.frames =~= old(self)@.frames.push(Map::empty()));
        assert(self@.memory =~= old(self)@.memory);
    }

    /// Drops the innermost frame, if there is one.
    pub fn leave(&mut self)
        ensures
            final(self)@ == (ContextView {
                frames: if old(self)@.frames.len() > 0 {
                    old(self)@.frames.drop_last()
                } else {
                    old(self)@.frames
                },
                ..old(self)@
            }),
    {
        let _ = self.frames.pop();
        assert(self@.frames =~= if old(self)@.frames.len() > 0 {
            old(self)@.frames.drop_last()
        } else {
            old(self)@.frames
        });
        assert(self@.memory =~= old(self)@.memory);
    }
}

} // verus!

use vstd::prelude::*;

verus! {

/// The machine word every expression evaluates to.
pub type Value = i64;

/// A byte displacement from a base register.
pub type StackOffset = i64;

/// An interned name. Two identifiers are the same name exactly when their
/// ordinals are equal; the spelling lives in the name table of the file.
#[derive(Clone, Copy, Debug, PartialEq, Eq, Hash, Structural)]
pub struct Ident {
    pub id: u32,
}

/// Ordinal reserved for the program's entry point.
pub const MAIN: u32 = 0;

/// Ordinal reserved for the runtime primitive that prints one character.
pub const PUTCHAR: u32 = 1;

/// Ordinal reserved for the runtime primitive that allocates a struct.
pub const MALLOC: u32 = 2;

impl Ident {
    pub fn new(id: u32) -> (r: Ident)
        ensures
            r.id == id,
    {
        Ident { id }
    }

    pub fn main() -> (r: Ident)
        ensures
            r.id == MAIN,
    {
        Ident { id: MAIN }
    }

    pub fn putchar() -> (r: Ident)
        ensures
            r.id == PUTCHAR,
    {
        Ident { id: PUTCHAR }
    }

    pub fn malloc() -> (r: Ident)
        ensures
            r.id == MALLOC,
    {
        Ident { id: MALLOC }
    }
}

/// What a program has written so far, one character per `putchar`.
#[derive(Clone, Debug)]
pub struct Stdout {
    pub buffer: Vec<char>,
}

impl View for Stdout {
    type V = Seq<char>;

    open spec fn view(&self) -> Seq<char> {
        self.buffer@
    }
}

impl Stdout {
    pub fn new() -> (r: Stdout)
        ensures
            r@ == Seq::<char>::empty(),
    {
        Stdout { buffer: Vec::new() }
    }

    /// Appends one character.
    pub fn putchar(&mut self, char: char)
        ensures
            final(self)@ == old(self)@.push(char),
    {
        self.buffer.push(char)
    }

    /// Number of characters written.
    pub fn len(&self) -> (n: usize)
        ensures
            n == self@.len(),
    {
        self.buffer.len()
    }

    /// The `i`-th character written.
    pub fn char_at(&self, i: usize) -> (c: char)
        requires
            i < self@.len(),
        ensures
            c == self@[i as int],
    {
        self.buffer[i]
    }
}

/// Reading a machine word as a truth value: zero is false, anything else true.
pub trait Bool {
    spec fn truth(&self) -> bool;

    fn to_bool(&self) -> (b: bool)
        ensures
            b == self.truth(),
    ;
}

impl Bool for Value {
    open spec fn truth(&self) -> bool {
        *self != 0
    }

    fn to_bool(&self) -> (b: bool) {
        *self != 0
    }
}

/// Writing a truth value as a machine word: 1 for true, 0 for false.
pub trait ToCBool {
    spec fn word(&self) -> Value;

    fn to_minic_bool(&self) -> (v: Value)
        ensures
            v == self.word(),
    ;
}

impl ToCBool for bool {
    open spec fn word(&self) -> Value {
        if *self {
            1
        } else {
            0
        }
    }

    fn to_minic_bool(&self) -> (v: Value) {
        if *self {
            1
        } else {
            0
        }
    }
}

} // verus!

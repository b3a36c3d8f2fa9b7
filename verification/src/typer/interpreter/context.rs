use crate::common::{Ident, Stdout, Value};
use crate::typer::interpreter::error::TypInterpreterError;
use crate::typer::structure::BlockIdent;
use vstd::prelude::*;

verus! {

/// What a variable or a field holds before it is written.
pub const DEFAULT_FIELD_VALUE: Value = 0;

/// The value bound to `key` in `pairs`: that of the first pair for it, or
/// the default.
pub open spec fn bound<K>(pairs: Seq<(K, Value)>, key: K) -> Value
    decreases pairs.len(),
{
    if pairs.len() == 0 {
        DEFAULT_FIELD_VALUE
    } else if pairs[0].0 == key {
        pairs[0].1
    } else {
        bound(pairs.drop_first(), key)
    }
}

/// Some pair of `pairs` is for `key`.
pub open spec fn mentions<K>(pairs: Seq<(K, Value)>, key: K) -> bool {
    exists|i: int| 0 <= i < pairs.len() && (#[trigger] pairs[i]).0 == key
}

/// The variables of a function that runs: an innermost scope, and the
/// scopes around it.
#[derive(Debug)]
pub enum InterpreterContext {
    Root,
    Node(Vec<(BlockIdent, Value)>, Box<InterpreterContext>),
}

/// The variables of one scope, each with its value, the last written first.
#[derive(Debug)]
pub struct MemoryVar {
    pub vars: Vec<(BlockIdent, Value)>,
}

/// The fields of one allocated struct, each with its value, the last
/// written first.
#[derive(Debug)]
pub struct MemoryStruct {
    pub fields: Vec<(Ident, Value)>,
}

/// The value bound to `key` in `pairs`.
pub fn find_block_ident(pairs: &Vec<(BlockIdent, Value)>, key: BlockIdent) -> (r: Option<Value>)
    ensures
        match r {
            Some(value) => value == bound(pairs@, key) && mentions(pairs@, key),
            None => !mentions(pairs@, key),
        },
{
    let mut i: usize = 0;
    assert(pairs@.skip(0) =~= pairs@);
    while i < pairs.len()
        invariant
            i <= pairs@.len(),
            bound(pairs@, key) == bound(pairs@.skip(i as int), key),
            forall|k: int| 0 <= k < i ==> (#[trigger] pairs@[k]).0 != key,
        decreases pairs@.len() - i,
    {
        let (at, value) = pairs[i];
        proof {
            let rest = pairs@.skip(i as int);
            assert(rest[0] == pairs@[i as int]);
            assert(rest.drop_first() =~= pairs@.skip(i + 1));
        }
        if at == key {
            assert(pairs@[i as int].0 == key);
            return Some(value);
        }
        i = i + 1;
    }
    None
}

/// The value bound to `key` in `pairs`.
pub fn find_ident(pairs: &Vec<(Ident, Value)>, key: Ident) -> (r: Value)
    ensures
        r == bound(pairs@, key),
{
    let mut i: usize = 0;
    assert(pairs@.skip(0) =~= pairs@);
    while i < pairs.len()
        invariant
            i <= pairs@.len(),
            bound(pairs@, key) == bound(pairs@.skip(i as int), key),
        decreases pairs@.len() - i,
    {
        let (at, value) = pairs[i];
        proof {
            let rest = pairs@.skip(i as int);
            assert(rest[0] == pairs@[i as int]);
            assert(rest.drop_first() =~= pairs@.skip(i + 1));
        }
        if at == key {
            return value;
        }
        i = i + 1;
    }
    DEFAULT_FIELD_VALUE
}

impl InterpreterContext {
    /// The variable `ident` has a value in some scope.
    pub open spec fn has(self, ident: BlockIdent) -> bool
        decreases self,
    {
        match self {
            InterpreterContext::Root => false,
            InterpreterContext::Node(scope, parent) => mentions(scope@, ident) || parent.has(
                ident,
            ),
        }
    }

    /// The value of `ident`: that of the innermost scope that has it, or the
    /// default.
    pub open spec fn value(self, ident: BlockIdent) -> Value
        decreases self,
    {
        match self {
            InterpreterContext::Root => DEFAULT_FIELD_VALUE,
            InterpreterContext::Node(scope, parent) => if mentions(scope@, ident) {
                bound(scope@, ident)
            } else {
                parent.value(ident)
            },
        }
    }

    /// One empty scope.
    pub fn new() -> (r: InterpreterContext)
        ensures
            r is Node,
            forall|ident: BlockIdent| r.value(ident) == DEFAULT_FIELD_VALUE,
            forall|ident: BlockIdent| !r.has(ident),
    {
        let r = InterpreterContext::Node(Vec::new(), Box::new(InterpreterContext::Root));
        proof {
            assert forall|ident: BlockIdent| r.value(ident) == DEFAULT_FIELD_VALUE && !r.has(
                ident,
            ) by {
                assert(InterpreterContext::Root.value(ident) == DEFAULT_FIELD_VALUE);
                assert(!InterpreterContext::Root.has(ident));
                assert(!mentions(Seq::<(BlockIdent, Value)>::empty(), ident));
            }
        }
        r
    }

    /// The value of `ident`.
    pub fn get(&self, ident: BlockIdent) -> (r: Value)
        ensures
            r == self.value(ident),
        decreases self,
    {
        match self {
            InterpreterContext::Root => DEFAULT_FIELD_VALUE,
            InterpreterContext::Node(scope, parent) => match find_block_ident(scope, ident) {
                Some(value) => value,
                None => parent.get(ident),
            },
        }
    }

    /// Gives `ident` the value `value` in the innermost scope; the root has
    /// no scope and keeps nothing.
    pub fn set(&mut self, ident: BlockIdent, value: Value)
        ensures
            *old(self) is Root ==> *final(self) is Root,
            *old(self) is Node ==> *final(self) is Node && final(self).value(ident) == value
                && final(self).has(ident) && forall|other: BlockIdent|
                other != ident ==> final(self).value(other) == old(self).value(other) && final(self).has(other) == old(self).has(other),
    {
        match self {
            InterpreterContext::Root => {},
            InterpreterContext::Node(scope, _) => {
                let ghost before = scope@;
                scope.insert(0, (ident, value));
                proof {
                    let pairs = scope@;
                    assert(pairs[0].0 == ident);
                    assert(mentions(pairs, ident));
                    assert(pairs.drop_first() =~= before);
                    assert forall|other: BlockIdent| other != ident implies (#[trigger] mentions(
                        pairs,
                        other,
                    ) <==> mentions(before, other)) by {
                        if mentions(pairs, other) {
                            let i = choose|i: int|
                                0 <= i < pairs.len() && (#[trigger] pairs[i]).0 == other;
                            assert(before[i - 1].0 == other);
                        }
                        if mentions(before, other) {
                            let i = choose|i: int|
                                0 <= i < before.len() && (#[trigger] before[i]).0 == other;
                            assert(pairs[i + 1].0 == other);
                        }
                    }
                }
            },
        }
    }
}

/// The variables of `context` that have a value, each with its value.
pub open spec fn vars_of(context: InterpreterContext) -> Map<BlockIdent, Value> {
    Map::new(|ident: BlockIdent| context.has(ident), |ident: BlockIdent| context.value(ident))
}

/// A variable that has no value in a context reads as the default.
pub proof fn lemma_absent(context: InterpreterContext, ident: BlockIdent)
    requires
        !context.has(ident),
    ensures
        context.value(ident) == DEFAULT_FIELD_VALUE,
    decreases context,
{
    match context {
        InterpreterContext::Root => {},
        InterpreterContext::Node(_, parent) => {
            lemma_absent(*parent, ident);
        },
    }
}

impl MemoryVar {
    pub fn new() -> (r: MemoryVar)
        ensures
            r.vars@.len() == 0,
    {
        MemoryVar { vars: Vec::new() }
    }

    /// The value of `ident`, or the default.
    pub fn get(&self, ident: BlockIdent) -> (r: Value)
        ensures
            r == bound(self.vars@, ident),
    {
        match find_block_ident(&self.vars, ident) {
            Some(value) => value,
            None => {
                proof {
                    lemma_unbound(self.vars@, ident);
                }
                DEFAULT_FIELD_VALUE
            },
        }
    }

    /// Gives `ident` the value `value`.
    pub fn set(&mut self, ident: BlockIdent, value: Value)
        ensures
            bound(final(self).vars@, ident) == value,
            forall|other: BlockIdent|
                other != ident ==> bound(final(self).vars@, other) == bound(
                    old(self).vars@,
                    other,
                ),
    {
        self.vars.insert(0, (ident, value));
        assert(self.vars@.drop_first() =~= old(self).vars@);
    }
}

/// A key that no pair has is bound to the default.
pub proof fn lemma_unbound<K>(pairs: Seq<(K, Value)>, key: K)
    requires
        !mentions(pairs, key),
    ensures
        bound(pairs, key) == DEFAULT_FIELD_VALUE,
    decreases pairs.len(),
{
    if pairs.len() > 0 {
        assert(pairs[0].0 != key);
        if mentions(pairs.drop_first(), key) {
            let i = choose|i: int|
                0 <= i < pairs.drop_first().len() && (#[trigger] pairs.drop_first()[i]).0 == key;
            assert(pairs[i + 1].0 == key);
        }
        lemma_unbound(pairs.drop_first(), key);
    }
}

impl MemoryStruct {
    pub fn new() -> (r: MemoryStruct)
        ensures
            r.fields@.len() == 0,
    {
        MemoryStruct { fields: Vec::new() }
    }

    /// The value of the field `ident`, or the default.
    pub fn get(&self, ident: Ident) -> (r: Value)
        ensures
            r == bound(self.fields@, ident),
    {
        find_ident(&self.fields, ident)
    }

    /// Gives the field `ident` the value `value`.
    pub fn set(&mut self, ident: Ident, value: Value)
        ensures
            final(self).fields@ == seq![(ident, value)] + old(self).fields@,
    {
        self.fields.insert(0, (ident, value));
        assert(self.fields@ =~= seq![(ident, value)] + old(self).fields@);
    }
}

/// What can be called by its name in a run: a runtime primitive.
pub trait TyperInterpreterFun {
    /// What a call writes, given the variables of the callee.
    spec fn written(&self, context: InterpreterContext) -> Seq<char>;

    /// The number of structs that a call allocates.
    spec fn allocated(&self) -> nat;

    /// What a call hands back, given the variables of the callee and the
    /// number of structs allocated before.
    spec fn result(&self, context: InterpreterContext, memory: nat) -> Value;

    /// Runs the primitive. It fails, with nothing changed, only where it
    /// allocates and the addresses are used up.
    fn call(&self, context: &InterpreterContext, memory: &mut Vec<MemoryStruct>, stdout: &mut Stdout) -> (r:
        Result<Value, TypInterpreterError>)
        ensures
            match r {
                Ok(value) => (self.allocated() == 0 || old(memory)@.len() < 0x7fff_ffff_ffff_fff0)
                    && value == self.result(*context, old(memory)@.len()) && final(stdout)@
                    == old(stdout)@ + self.written(*context) && final(memory)@.len() == old(memory)@.len() + self.allocated() && final(memory)@.take(old(memory)@.len() as int)
                    == old(memory)@ && forall|i: int|
                    old(memory)@.len() <= i < final(memory)@.len() ==> (
                    #[trigger] final(memory)@[i]).fields@.len() == 0,
                Err(error) => error == TypInterpreterError::OutOfMemory && self.allocated() > 0
                    && old(memory)@.len() >= 0x7fff_ffff_ffff_fff0 && *final(stdout) == *old(stdout) && *final(memory) == *old(memory),
            },
    ;
}

} // verus!

use crate::common::{Ident, MALLOC, PUTCHAR};
use crate::typer::structure::{BlockIdent, Field, Formal, Signature, Struct, Typ};
use vstd::prelude::*;

verus! {

/// Ordinal of the name of the argument of `putchar`.
pub const PUTCHAR_ARGUMENT: u32 = 3;

/// Ordinal of the name of the argument of `malloc`.
pub const MALLOC_ARGUMENT: u32 = 4;

/// What is known of a file: the spelling of each name, the structs and the
/// signatures of the functions declared so far.
#[derive(Debug)]
pub struct FileContext {
    pub names: Vec<String>,
    pub structs: Vec<Struct>,
    pub funs: Vec<Signature>,
}

/// The ordinal of the name spelt `name`: the place of its first entry in
/// `names` from `from` on.
pub open spec fn name_index(names: Seq<String>, name: Seq<char>, from: int) -> Option<int>
    decreases names.len() - from,
{
    if from < 0 || from >= names.len() {
        None
    } else if names[from]@ == name {
        Some(from)
    } else {
        name_index(names, name, from + 1)
    }
}

/// The ordinal of the name spelt `name` once it is in the name table of
/// `file`: the one it has, or the next one; `None` where it has none and the
/// ordinals are used up.
pub open spec fn intern_model(file: FileContext, name: Seq<char>) -> Option<Ident> {
    match name_index(file.names@, name, 0) {
        Some(index) => Some(Ident { id: index as u32 }),
        None => if file.names@.len() < u32::MAX {
            Some(Ident { id: file.names@.len() as u32 })
        } else {
            None
        },
    }
}

/// `after` is `before` once the name spelt `name` is in its name table: a
/// name that was not there stands at the end, where there was an ordinal
/// left for it.
pub open spec fn interned(before: FileContext, name: Seq<char>, after: FileContext) -> bool {
    &&& after.structs == before.structs
    &&& after.funs == before.funs
    &&& if name_index(before.names@, name, 0) is None && before.names@.len() < u32::MAX {
        &&& after.names@.len() == before.names@.len() + 1
        &&& after.names@.drop_last() == before.names@
        &&& after.names@.last()@ == name
    } else {
        after.names == before.names
    }
}

/// The place of the struct named `name` in `structs`, from `from` on.
pub open spec fn struct_index(structs: Seq<Struct>, name: Ident, from: int) -> Option<int>
    decreases structs.len() - from,
{
    if from < 0 || from >= structs.len() {
        None
    } else if structs[from].name == name {
        Some(from)
    } else {
        struct_index(structs, name, from + 1)
    }
}

/// The place of the function named `name` in `funs`, from `from` on.
pub open spec fn signature_index(funs: Seq<Signature>, name: Ident, from: int) -> Option<int>
    decreases funs.len() - from,
{
    if from < 0 || from >= funs.len() {
        None
    } else if funs[from].name == name {
        Some(from)
    } else {
        signature_index(funs, name, from + 1)
    }
}

/// The field named `name` among `fields`, from `from` on.
pub open spec fn field_of(fields: Seq<Field>, name: Ident, from: int) -> Option<Field>
    decreases fields.len() - from,
{
    if from < 0 || from >= fields.len() {
        None
    } else if fields[from].name == name {
        Some(fields[from])
    } else {
        field_of(fields, name, from + 1)
    }
}

/// The variable named `name` among `vars`, from `from` on, with its type.
pub open spec fn var_of(vars: Seq<(Ident, Typ)>, name: Ident, from: int) -> Option<Typ>
    decreases vars.len() - from,
{
    if from < 0 || from >= vars.len() {
        None
    } else if vars[from].0 == name {
        Some(vars[from].1)
    } else {
        var_of(vars, name, from + 1)
    }
}

/// The argument named `name` among `arguments`, from `from` on.
pub open spec fn argument_of(arguments: Seq<Formal>, name: Ident, from: int) -> Option<Formal>
    decreases arguments.len() - from,
{
    if from < 0 || from >= arguments.len() {
        None
    } else if arguments[from].name matches BlockIdent::Arg(_, n) && n == name {
        Some(arguments[from])
    } else {
        argument_of(arguments, name, from + 1)
    }
}

/// The variable named `name` in the first `n` of `scopes`, the innermost
/// of them first.
pub open spec fn scoped(scopes: Seq<BlockContext>, name: Ident, n: nat) -> Option<(BlockIdent, Typ)>
    decreases n,
{
    if n == 0 || n > scopes.len() {
        None
    } else {
        match var_of(scopes[n - 1].vars@, name, 0) {
            Some(typ) => Some((BlockIdent::Local(scopes[n - 1].index, name), typ)),
            None => scoped(scopes, name, (n - 1) as nat),
        }
    }
}

/// `file` is the context of an empty file: the names `main`, `putchar`,
/// `malloc`, `c` and `n`, in that order; no struct; and the two runtime
/// primitives, `int putchar(int c)` and `void *malloc(int n)`.
pub open spec fn initial(file: FileContext) -> bool {
    &&& file.names@.len() == 5
    &&& file.names@[0]@ == "main"@
    &&& file.names@[1]@ == "putchar"@
    &&& file.names@[2]@ == "malloc"@
    &&& file.names@[3]@ == "c"@
    &&& file.names@[4]@ == "n"@
    &&& file.structs@.len() == 0
    &&& file.funs@.len() == 2
    &&& file.funs@[0].name.id == PUTCHAR
    &&& file.funs@[0].typ == Typ::TInt
    &&& file.funs@[0].args@ == seq![
        Formal { name: BlockIdent::Arg(0, Ident { id: PUTCHAR_ARGUMENT }), typ: Typ::TInt },
    ]
    &&& file.funs@[1].name.id == MALLOC
    &&& file.funs@[1].typ == Typ::TVoidStar
    &&& file.funs@[1].args@ == seq![
        Formal { name: BlockIdent::Arg(0, Ident { id: MALLOC_ARGUMENT }), typ: Typ::TInt },
    ]
}

impl FileContext {
    /// The context of an empty file.
    pub fn default() -> (r: FileContext)
        ensures
            initial(r),
    {
        let mut names: Vec<String> = Vec::new();
        names.push("main".to_owned());
        names.push("putchar".to_owned());
        names.push("malloc".to_owned());
        names.push("c".to_owned());
        names.push("n".to_owned());
        let mut funs: Vec<Signature> = Vec::new();
        funs.push(Signature::putchar(Ident::new(PUTCHAR_ARGUMENT)));
        funs.push(Signature::malloc(Ident::new(MALLOC_ARGUMENT)));
        FileContext { names, structs: Vec::new(), funs }
    }

    /// The ordinal of the name spelt `name`, if it has one.
    pub fn lookup(&self, name: &String) -> (r: Option<Ident>)
        ensures
            match r {
                Some(ident) => name_index(self.names@, name@, 0) == Some(ident.id as int)
                    && ident.id < self.names@.len(),
                None => name_index(self.names@, name@, 0) is None || self.names@.len()
                    > u32::MAX,
            },
    {
        let mut i: usize = 0;
        while i < self.names.len()
            invariant
                i <= self.names@.len(),
                name_index(self.names@, name@, 0) == name_index(self.names@, name@, i as int),
            decreases self.names@.len() - i,
        {
            if i as u64 > 0xffff_ffff {
                return None;
            }
            if self.names[i] == *name {
                return Some(Ident::new(i as u32));
            }
            i = i + 1;
        }
        None
    }

    /// The ordinal of the name spelt `name`, which is given one if it has
    /// none; `None` where the ordinals are used up.
    pub fn intern(&mut self, name: &String) -> (r: Option<Ident>)
        ensures
            final(self).structs == old(self).structs,
            final(self).funs == old(self).funs,
            old(self).names@.len() <= u32::MAX ==> final(self).names@.len() <= u32::MAX,
            old(self).names@.len() <= final(self).names@.len(),
            match r {
                Some(ident) => ident.id < final(self).names@.len()
                    && final(self).names@[ident.id as int]@ == name@
                    && (final(self).names@ == old(self).names@
                    || final(self).names@.drop_last() == old(self).names@),
                None => final(self).names == old(self).names,
            },
            old(self).names@.len() <= u32::MAX ==> r == intern_model(*old(self), name@)
                && interned(*old(self), name@, *final(self)),
    {
        match self.lookup(name) {
            Some(ident) => {
                proof {
                    lemma_name_index(self.names@, name@, 0);
                }
                Some(ident)
            },
            None => {
                let n = self.names.len();
                if n as u64 >= 0xffff_ffff {
                    return None;
                }
                self.names.push(name.clone());
                assert(self.names@.drop_last() =~= old(self).names@);
                Some(Ident::new(n as u32))
            },
        }
    }

    /// The struct named `name`, if it is declared.
    pub fn find_struct(&self, name: Ident) -> (r: Option<usize>)
        ensures
            match r {
                Some(index) => struct_index(self.structs@, name, 0) == Some(index as int) && index
                    < self.structs@.len(),
                None => struct_index(self.structs@, name, 0) is None,
            },
    {
        let mut i: usize = 0;
        while i < self.structs.len()
            invariant
                i <= self.structs@.len(),
                struct_index(self.structs@, name, 0) == struct_index(
                    self.structs@,
                    name,
                    i as int,
                ),
            decreases self.structs@.len() - i,
        {
            if self.structs[i].name == name {
                return Some(i);
            }
            i = i + 1;
        }
        None
    }

    /// The function named `name`, if it is declared.
    pub fn find_fun(&self, name: Ident) -> (r: Option<usize>)
        ensures
            match r {
                Some(index) => signature_index(self.funs@, name, 0) == Some(index as int) && index
                    < self.funs@.len(),
                None => signature_index(self.funs@, name, 0) is None,
            },
    {
        let mut i: usize = 0;
        while i < self.funs.len()
            invariant
                i <= self.funs@.len(),
                signature_index(self.funs@, name, 0) == signature_index(
                    self.funs@,
                    name,
                    i as int,
                ),
            decreases self.funs@.len() - i,
        {
            if self.funs[i].name == name {
                return Some(i);
            }
            i = i + 1;
        }
        None
    }
}

/// Where a name is found, it is spelt as asked.
pub proof fn lemma_name_index(names: Seq<String>, name: Seq<char>, from: int)
    requires
        0 <= from,
    ensures
        match name_index(names, name, from) {
            Some(index) => from <= index < names.len() && names[index]@ == name,
            None => true,
        },
    decreases names.len() - from,
{
    if from < names.len() && names[from]@ != name {
        lemma_name_index(names, name, from + 1);
    }
}

/// The field named `name` of `structure`, if it has one.
pub fn find_field(structure: &Struct, name: Ident) -> (r: Option<Field>)
    ensures
        r == field_of(structure.fields@, name, 0),
{
    let mut i: usize = 0;
    while i < structure.fields.len()
        invariant
            i <= structure.fields@.len(),
            field_of(structure.fields@, name, 0) == field_of(structure.fields@, name, i as int),
        decreases structure.fields@.len() - i,
    {
        if structure.fields[i].name == name {
            return Some(structure.fields[i]);
        }
        i = i + 1;
    }
    None
}

/// Contexts in which a variable can be looked up by its name.
pub trait ParentContext {
    /// The variable named `ident`, as it is scoped, with its type.
    spec fn resolve(&self, ident: Ident) -> Option<(BlockIdent, Typ)>;

    /// The variable named `ident`, as it is scoped, with its type.
    fn find(&self, ident: Ident) -> (r: Option<(BlockIdent, Typ)>)
        ensures
            r == self.resolve(ident),
    ;
}

/// What is known inside a function: its name and result type, its
/// arguments, the locals declared so far, the number of blocks opened so
/// far, and the blocks that are open, the innermost last.
#[derive(Debug)]
pub struct FunctionContext {
    pub name: Ident,
    pub typ: Typ,
    pub block_counter: u8,
    pub arguments: Vec<Formal>,
    pub locals: Vec<BlockIdent>,
    pub scopes: Vec<BlockContext>,
}

/// The variables of one block, with the index of the block.
#[derive(Debug)]
pub struct BlockContext {
    pub index: u8,
    pub vars: Vec<(Ident, Typ)>,
}

/// Index of the block that holds the arguments.
pub const ARGUMENT_BLOCK_INDEX: u8 = 0;

impl FunctionContext {
    pub fn new(name: Ident, typ: Typ, arguments: Vec<Formal>) -> (r: FunctionContext)
        ensures
            r.name == name,
            r.typ == typ,
            r.block_counter == ARGUMENT_BLOCK_INDEX + 1,
            r.arguments == arguments,
            r.locals@.len() == 0,
            r.scopes@.len() == 0,
    {
        FunctionContext {
            name,
            typ,
            block_counter: ARGUMENT_BLOCK_INDEX + 1,
            arguments,
            locals: Vec::new(),
            scopes: Vec::new(),
        }
    }

    /// The argument named `ident`, if there is one.
    pub fn find_one_by_ident(&self, ident: Ident) -> (r: Option<Formal>)
        ensures
            r == argument_of(self.arguments@, ident, 0),
    {
        let mut i: usize = 0;
        while i < self.arguments.len()
            invariant
                i <= self.arguments@.len(),
                argument_of(self.arguments@, ident, 0) == argument_of(
                    self.arguments@,
                    ident,
                    i as int,
                ),
            decreases self.arguments@.len() - i,
        {
            let formal = self.arguments[i];
            match formal.name {
                BlockIdent::Arg(_, name) => {
                    if name == ident {
                        return Some(formal);
                    }
                },
                BlockIdent::Local(_, _) => {},
            }
            i = i + 1;
        }
        None
    }

    /// The index for a block that opens; `None` once the indices are used
    /// up.
    pub fn fresh_index(&mut self) -> (r: Option<u8>)
        ensures
            final(self).name == old(self).name,
            final(self).typ == old(self).typ,
            final(self).arguments == old(self).arguments,
            final(self).locals == old(self).locals,
            final(self).scopes == old(self).scopes,
            match r {
                Some(index) => index == old(self).block_counter && old(self).block_counter < 255
                    && final(self).block_counter == index + 1,
                None => old(self).block_counter == 255 && final(self).block_counter == 255,
            },
    {
        if self.block_counter == 255 {
            None
        } else {
            let index = self.block_counter;
            self.block_counter = self.block_counter + 1;
            Some(index)
        }
    }
}

impl BlockContext {
    pub fn new(index: u8, vars: Vec<(Ident, Typ)>) -> (r: BlockContext)
        ensures
            r.index == index,
            r.vars == vars,
    {
        BlockContext { index, vars }
    }

    /// The type of the variable named `ident` in this block, if it has one.
    pub fn typ(&self, ident: Ident) -> (r: Option<Typ>)
        ensures
            r == var_of(self.vars@, ident, 0),
    {
        let mut i: usize = 0;
        while i < self.vars.len()
            invariant
                i <= self.vars@.len(),
                var_of(self.vars@, ident, 0) == var_of(self.vars@, ident, i as int),
            decreases self.vars@.len() - i,
        {
            if self.vars[i].0 == ident {
                return Some(self.vars[i].1);
            }
            i = i + 1;
        }
        None
    }
}

impl ParentContext for BlockContext {
    open spec fn resolve(&self, ident: Ident) -> Option<(BlockIdent, Typ)> {
        match var_of(self.vars@, ident, 0) {
            Some(typ) => Some((BlockIdent::Local(self.index, ident), typ)),
            None => None,
        }
    }

    fn find(&self, ident: Ident) -> (r: Option<(BlockIdent, Typ)>) {
        match self.typ(ident) {
            Some(typ) => Some((BlockIdent::Local(self.index, ident), typ)),
            None => None,
        }
    }
}

impl ParentContext for FunctionContext {
    open spec fn resolve(&self, ident: Ident) -> Option<(BlockIdent, Typ)> {
        match scoped(self.scopes@, ident, self.scopes@.len()) {
            Some(found) => Some(found),
            None => match argument_of(self.arguments@, ident, 0) {
                Some(formal) => Some((formal.name, formal.typ)),
                None => None,
            },
        }
    }

    fn find(&self, ident: Ident) -> (r: Option<(BlockIdent, Typ)>) {
        let mut n: usize = self.scopes.len();
        while n > 0
            invariant
                n <= self.scopes@.len(),
                scoped(self.scopes@, ident, self.scopes@.len()) == scoped(
                    self.scopes@,
                    ident,
                    n as nat,
                ),
            decreases n,
        {
            n = n - 1;
            match self.scopes[n].typ(ident) {
                Some(typ) => {
                    return Some((BlockIdent::Local(self.scopes[n].index, ident), typ));
                },
                None => {},
            }
        }
        match self.find_one_by_ident(ident) {
            Some(formal) => Some((formal.name, formal.typ)),
            None => None,
        }
    }
}

} // verus!

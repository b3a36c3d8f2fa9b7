use crate::common::{Ident, StackOffset, Value, MAIN, MALLOC, PUTCHAR};
use vstd::prelude::*;

verus! {

pub type StructSize = Value;

pub type Unop = crate::parser::structure::Unop;

pub type Binop = crate::parser::structure::Binop;

/// A typed program. `names[i]` spells the identifier whose ordinal is `i`.
#[derive(Debug)]
pub struct File {
    pub funs: Vec<Fun>,
    pub structs: Vec<Struct>,
    pub names: Vec<String>,
}

/// A variable after scoping: the `i`-th argument, or a local of the block
/// with the given index.
#[derive(Debug, Clone, Copy, Eq, Hash, PartialEq, Structural)]
pub enum BlockIdent {
    Arg(usize, Ident),
    Local(u8, Ident),
}

#[derive(Debug)]
pub struct Signature {
    pub name: Ident,
    pub typ: Typ,
    pub args: Vec<Formal>,
}

#[derive(Debug)]
pub struct Fun {
    pub signature: Signature,
    pub locals: Vec<BlockIdent>,
    pub block: Block,
}

#[derive(Debug, Clone, Copy, PartialEq, Eq, Structural)]
pub struct Formal {
    pub name: BlockIdent,
    pub typ: Typ,
}

#[derive(Debug, Clone, Copy, PartialEq, Eq, Structural)]
pub struct Field {
    pub name: Ident,
    pub index: u8,
    pub typ: Typ,
}

#[derive(Clone, Copy, Debug, PartialEq, Eq, Structural)]
pub enum Typ {
    TInt,
    TVoidStar,
    TTypeNull,
    TStruct(Ident),
}

#[derive(Debug)]
pub struct Struct {
    pub name: Ident,
    pub fields: Vec<Field>,
}

#[derive(Debug)]
pub struct Block {
    pub stmts: Vec<Stmt>,
}

#[derive(Debug)]
pub enum Stmt {
    SSkip,
    SExpr(Expr),
    SIf(Expr, Box<Stmt>, Box<Stmt>),
    SWhile(Expr, Box<Stmt>),
    SBlock(Block),
    SReturn(Expr),
}

#[derive(Debug)]
pub struct Expr {
    pub node: ExprNode,
    pub typ: Typ,
}

/// An actual argument, with the formal it is passed for.
#[derive(Debug)]
pub struct ArgExpr {
    pub formal: Formal,
    pub expr: Expr,
}

#[derive(Debug)]
pub enum ExprNode {
    EConst(Value),
    EAccessLocal(BlockIdent),
    EAccessField(Box<Expr>, Field),
    EAssignLocal(BlockIdent, Box<Expr>),
    EAssignField(Box<Expr>, Field, Box<Expr>),
    EUnop(Unop, Box<Expr>),
    EBinop(Binop, Box<Expr>, Box<Expr>),
    ECall(Ident, Vec<ArgExpr>),
}

/// Bytes taken by one field of a struct.
pub const FIELD_SIZE: i64 = 8;

impl Struct {
    pub fn new(name: Ident, fields: Vec<Field>) -> (r: Struct)
        ensures
            r.name == name,
            r.fields == fields,
    {
        Struct { name, fields }
    }

    /// The size in bytes: eight for each field, or `None` where that does
    /// not fit a machine word.
    pub fn c_size(&self) -> (r: Option<StructSize>)
        ensures
            r == if self.fields@.len() * FIELD_SIZE <= i64::MAX {
                Some((self.fields@.len() * FIELD_SIZE) as i64)
            } else {
                None
            },
    {
        let n: u64 = self.fields.len() as u64;
        if n <= 0x0fff_ffff_ffff_ffff {
            Some((n as i64) * FIELD_SIZE)
        } else {
            None
        }
    }
}

impl Field {
    pub fn new(name: Ident, index: u8, typ: Typ) -> (r: Field)
        ensures
            r == (Field { name, index, typ }),
    {
        Field { name, index, typ }
    }

    /// The displacement of the field from the start of its struct.
    pub fn c_offset(&self) -> (r: StackOffset)
        ensures
            r == self.index * FIELD_SIZE,
    {
        (self.index as i64) * FIELD_SIZE
    }
}

impl File {
    pub fn new(funs: Vec<Fun>, structs: Vec<Struct>, names: Vec<String>) -> (r: File)
        ensures
            r.funs == funs,
            r.structs == structs,
            r.names == names,
    {
        File { funs, structs, names }
    }

    pub fn into_funs(self) -> (r: Vec<Fun>)
        ensures
            r == self.funs,
    {
        self.funs
    }
}

impl Formal {
    pub fn new(name: BlockIdent, typ: Typ) -> (r: Formal)
        ensures
            r == (Formal { name, typ }),
    {
        Formal { name, typ }
    }
}

impl Signature {
    pub fn new(name: Ident, typ: Typ, args: Vec<Formal>) -> (r: Signature)
        ensures
            r.name == name,
            r.typ == typ,
            r.args == args,
    {
        Signature { name, typ, args }
    }

    /// `int main()`.
    pub fn main() -> (r: Signature)
        ensures
            r.name.id == MAIN,
            r.typ == Typ::TInt,
            r.args@.len() == 0,
    {
        Signature { name: Ident::main(), typ: Typ::TInt, args: Vec::new() }
    }

    /// `int putchar(int c)`; the argument's name is given by the caller.
    pub fn putchar(c: Ident) -> (r: Signature)
        ensures
            r.name.id == PUTCHAR,
            r.typ == Typ::TInt,
            r.args@ == seq![Formal { name: BlockIdent::Arg(0, c), typ: Typ::TInt }],
    {
        let mut args = Vec::new();
        args.push(Formal { name: BlockIdent::Arg(0, c), typ: Typ::TInt });
        Signature { name: Ident::putchar(), typ: Typ::TInt, args }
    }

    /// `void *malloc(int n)`; the argument's name is given by the caller.
    pub fn malloc(n: Ident) -> (r: Signature)
        ensures
            r.name.id == MALLOC,
            r.typ == Typ::TVoidStar,
            r.args@ == seq![Formal { name: BlockIdent::Arg(0, n), typ: Typ::TInt }],
    {
        let mut args = Vec::new();
        args.push(Formal { name: BlockIdent::Arg(0, n), typ: Typ::TInt });
        Signature { name: Ident::malloc(), typ: Typ::TVoidStar, args }
    }
}

impl Fun {
    pub fn new(signature: Signature, locals: Vec<BlockIdent>, block: Block) -> (r: Fun)
        ensures
            r.signature == signature,
            r.locals == locals,
            r.block == block,
    {
        Fun { signature, locals, block }
    }
}

impl Block {
    pub fn new(stmts: Vec<Stmt>) -> (r: Block)
        ensures
            r.stmts == stmts,
    {
        Block { stmts }
    }
}

impl Expr {
    pub fn new(node: ExprNode, typ: Typ) -> (r: Expr)
        ensures
            r.node == node,
            r.typ == typ,
    {
        Expr { node, typ }
    }
}

impl ArgExpr {
    pub fn new(formal: Formal, expr: Expr) -> (r: ArgExpr)
        ensures
            r.formal == formal,
            r.expr == expr,
    {
        ArgExpr { formal, expr }
    }
}

} // verus!

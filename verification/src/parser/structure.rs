use crate::common::Value;
use vstd::prelude::*;

verus! {

/// A whole source file: its functions and its struct declarations, each in
/// the order in which they were written.
#[derive(Debug, PartialEq)]
pub struct File {
    pub funs: Vec<Fun>,
    pub structs: Vec<Struct>,
}

#[derive(Debug, PartialEq)]
pub enum Typ {
    TInt,
    TStruct(String),
}

/// A name with its declared type.
#[derive(Debug, PartialEq)]
pub struct Formal {
    pub name: String,
    pub typ: Typ,
}

#[derive(Debug, PartialEq)]
pub struct Struct {
    pub name: String,
    pub fields: Vec<Formal>,
}

#[derive(Debug, PartialEq)]
pub struct Fun {
    pub profile: Formal,
    pub args: Vec<Formal>,
    pub body: Block,
}

#[derive(Debug, PartialEq)]
pub struct Block {
    pub vars: Vec<Formal>,
    pub stmts: Vec<Stmt>,
}

#[derive(Debug, PartialEq)]
pub enum Stmt {
    SSkip,
    SExpr(Expr),
    SIf(Expr, Box<Stmt>, Box<Stmt>),
    SWhile(Expr, Box<Stmt>),
    SBlock(Block),
    SReturn(Expr),
}

#[derive(Debug, PartialEq)]
pub enum Expr {
    EConst(Value),
    EVar(String),
    EArrow(Box<Expr>, String),
    EAssign(Box<Expr>, Box<Expr>),
    EUnop(Unop, Box<Expr>),
    EBinop(Binop, Box<Expr>, Box<Expr>),
    ECall(Box<Expr>, Vec<Expr>),
    ESizeof(String),
}

#[derive(Debug, PartialEq, Eq, Clone, Copy, Structural)]
pub enum Unop {
    UNot,
    UMinus,
}

#[derive(Debug, PartialEq, Eq, Clone, Copy, Structural)]
pub enum Binop {
    BEq,
    BNeq,
    BLt,
    BGt,
    BGe,
    BLe,
    BAdd,
    BSub,
    BMul,
    BDiv,
    BAnd,
    BOr,
}

impl File {
    pub fn new(funs: Vec<Fun>, structs: Vec<Struct>) -> (r: File)
        ensures
            r.funs == funs,
            r.structs == structs,
    {
        File { funs, structs }
    }
}

impl Formal {
    pub fn new(name: String, typ: Typ) -> (r: Formal)
        ensures
            r.name == name,
            r.typ == typ,
    {
        Formal { name, typ }
    }
}

impl Struct {
    pub fn new(name: String, fields: Vec<Formal>) -> (r: Struct)
        ensures
            r.name == name,
            r.fields == fields,
    {
        Struct { name, fields }
    }
}

impl Fun {
    pub fn new(profile: Formal, args: Vec<Formal>, body: Block) -> (r: Fun)
        ensures
            r.profile == profile,
            r.args == args,
            r.body == body,
    {
        Fun { profile, args, body }
    }
}

impl Block {
    pub fn new(vars: Vec<Formal>, stmts: Vec<Stmt>) -> (r: Block)
        ensures
            r.vars == vars,
            r.stmts == stmts,
    {
        Block { vars, stmts }
    }
}

} // verus!

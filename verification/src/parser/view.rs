use crate::common::Value;
use crate::parser::structure::{
    Binop, Block, Expr, File, Formal, Fun, Stmt, Struct, Typ, Unop,
};
use vstd::prelude::*;

verus! {

pub ghost enum TypView {
    TInt,
    TStruct(Seq<char>),
}

pub ghost struct FormalView {
    pub name: Seq<char>,
    pub typ: TypView,
}

pub ghost struct StructView {
    pub name: Seq<char>,
    pub fields: Seq<FormalView>,
}

pub ghost struct FunView {
    pub profile: FormalView,
    pub args: Seq<FormalView>,
    pub body: BlockView,
}

pub ghost struct BlockView {
    pub vars: Seq<FormalView>,
    pub stmts: Seq<StmtView>,
}

pub ghost enum StmtView {
    SSkip,
    SExpr(ExprView),
    SIf(ExprView, Box<StmtView>, Box<StmtView>),
    SWhile(ExprView, Box<StmtView>),
    SBlock(BlockView),
    SReturn(ExprView),
}

pub ghost enum ExprView {
    EConst(Value),
    EVar(Seq<char>),
    EArrow(Box<ExprView>, Seq<char>),
    EAssign(Box<ExprView>, Box<ExprView>),
    EUnop(Unop, Box<ExprView>),
    EBinop(Binop, Box<ExprView>, Box<ExprView>),
    ECall(Box<ExprView>, Seq<ExprView>),
    ESizeof(Seq<char>),
}

pub ghost struct FileView {
    pub funs: Seq<FunView>,
    pub structs: Seq<StructView>,
}

impl View for Typ {
    type V = TypView;

    open spec fn view(&self) -> TypView {
        match *self {
            Typ::TInt => TypView::TInt,
            Typ::TStruct(name) => TypView::TStruct(name@),
        }
    }
}

impl View for Formal {
    type V = FormalView;

    open spec fn view(&self) -> FormalView {
        FormalView { name: self.name@, typ: self.typ@ }
    }
}

/// The views of the formals of `formals`.
pub open spec fn formals_view(formals: Seq<Formal>) -> Seq<FormalView> {
    Seq::new(formals.len(), |i: int| formals[i]@)
}

impl View for Struct {
    type V = StructView;

    open spec fn view(&self) -> StructView {
        StructView { name: self.name@, fields: formals_view(self.fields@) }
    }
}

/// The expression as a mathematical value.
pub open spec fn expr_view(expr: Expr) -> ExprView
    decreases expr,
{
    match expr {
        Expr::EConst(x) => ExprView::EConst(x),
        Expr::EVar(name) => ExprView::EVar(name@),
        Expr::EArrow(inner, field) => ExprView::EArrow(Box::new(expr_view(*inner)), field@),
        Expr::EAssign(target, value) => ExprView::EAssign(
            Box::new(expr_view(*target)),
            Box::new(expr_view(*value)),
        ),
        Expr::EUnop(op, inner) => ExprView::EUnop(op, Box::new(expr_view(*inner))),
        Expr::EBinop(op, first, second) => ExprView::EBinop(
            op,
            Box::new(expr_view(*first)),
            Box::new(expr_view(*second)),
        ),
        Expr::ECall(callee, args) => ExprView::ECall(
            Box::new(expr_view(*callee)),
            Seq::new(
                args@.len(),
                |i: int|
                    if 0 <= i < args@.len() {
                        expr_view(args@[i])
                    } else {
                        ExprView::EConst(0)
                    },
            ),
        ),
        Expr::ESizeof(name) => ExprView::ESizeof(name@),
    }
}

impl View for Expr {
    type V = ExprView;

    open spec fn view(&self) -> ExprView {
        expr_view(*self)
    }
}

/// The views of the expressions of `exprs`.
pub open spec fn exprs_view(exprs: Seq<Expr>) -> Seq<ExprView> {
    Seq::new(exprs.len(), |i: int| expr_view(exprs[i]))
}

/// The statement as a mathematical value.
pub open spec fn stmt_view(stmt: Stmt) -> StmtView
    decreases stmt,
{
    match stmt {
        Stmt::SSkip => StmtView::SSkip,
        Stmt::SExpr(expr) => StmtView::SExpr(expr_view(expr)),
        Stmt::SIf(expr, stmt_if, stmt_else) => StmtView::SIf(
            expr_view(expr),
            Box::new(stmt_view(*stmt_if)),
            Box::new(stmt_view(*stmt_else)),
        ),
        Stmt::SWhile(expr, body) => StmtView::SWhile(expr_view(expr), Box::new(stmt_view(*body))),
        Stmt::SBlock(block) => StmtView::SBlock(
            BlockView {
                vars: formals_view(block.vars@),
                stmts: Seq::new(
                    block.stmts@.len(),
                    |i: int|
                        if 0 <= i < block.stmts@.len() {
                            stmt_view(block.stmts@[i])
                        } else {
                            StmtView::SSkip
                        },
                ),
            },
        ),
        Stmt::SReturn(expr) => StmtView::SReturn(expr_view(expr)),
    }
}

impl View for Stmt {
    type V = StmtView;

    open spec fn view(&self) -> StmtView {
        stmt_view(*self)
    }
}

/// The views of the statements of `stmts`.
pub open spec fn stmts_view(stmts: Seq<Stmt>) -> Seq<StmtView> {
    Seq::new(stmts.len(), |i: int| stmt_view(stmts[i]))
}

impl View for Block {
    type V = BlockView;

    open spec fn view(&self) -> BlockView {
        BlockView { vars: formals_view(self.vars@), stmts: stmts_view(self.stmts@) }
    }
}

impl View for Fun {
    type V = FunView;

    open spec fn view(&self) -> FunView {
        FunView { profile: self.profile@, args: formals_view(self.args@), body: self.body@ }
    }
}

impl View for File {
    type V = FileView;

    open spec fn view(&self) -> FileView {
        FileView {
            funs: Seq::new(self.funs@.len(), |i: int| self.funs@[i]@),
            structs: Seq::new(self.structs@.len(), |i: int| self.structs@[i]@),
        }
    }
}

} // verus!

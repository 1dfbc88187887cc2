//! Abstract syntax tree for the language: expressions, statements, type
//! references as written in source (`Typespec`), and declarations. Every node
//! carries a byte-offset `Span` for diagnostics; spans are never consulted by
//! resolution logic.

use vstd::prelude::*;

use crate::util::P;

verus! {

/// A `(start, end)` byte-offset pair locating a node in the source text.
#[derive(Clone, Copy, PartialEq, Eq, Structural, Debug)]
pub struct Span {
    pub start: usize,
    pub end: usize,
}

impl Span {
    pub fn new(start: usize, end: usize) -> (r: Self)
        ensures
            r == (Span { start, end }),
    {
        Self { start, end }
    }

    pub fn start(&self) -> (r: usize)
        ensures
            r == self.start,
    {
        self.start
    }

    pub fn end(&self) -> (r: usize)
        ensures
            r == self.end,
    {
        self.end
    }
}

/// A handle for one spelling of a name, issued by the identifier interner:
/// equal spellings always receive equal handles.
#[derive(Copy, Clone, Hash, Eq, PartialEq, Structural, Debug)]
pub struct Ident(pub usize);

impl Ident {
    pub fn new(index: usize) -> (r: Self)
        ensures
            r.0 == index,
    {
        Self(index)
    }

    pub fn index(&self) -> (r: usize)
        ensures
            r == self.0,
    {
        self.0
    }
}

/// Binary operators, from highest-precedence tier (`Multiply`, `Divide`) down
/// to the lowest (`Or`); all tiers associate to the left.
#[derive(Copy, Clone, PartialEq, Eq, Structural, Debug)]
pub enum BinaryOp {
    Multiply,
    Divide,
    Add,
    Minus,
    LessThan,
    LessThanEqual,
    GreaterThan,
    GreaterThanEqual,
    Equal,
    NotEqual,
    And,
    Or,
}

/// The shape of one expression node. Children are exclusively owned; the tree
/// is acyclic with no back-references.
pub enum ExprKind {
    Integer(u64),
    Ident(Ident),
    String(String),
    Binary { op: BinaryOp, left: P<Expr>, right: P<Expr> },
    Call { expr: P<Expr>, args: Vec<P<Expr>> },
    Index { expr: P<Expr>, index: P<Expr> },
}

pub struct Expr {
    pub kind: ExprKind,
    pub span: Span,
}

impl Expr {
    pub fn integer(span: Span, value: u64) -> (r: P<Expr>)
        ensures
            r@ == (Expr { kind: ExprKind::Integer(value), span }),
    {
        P::new(Box::new(Expr { kind: ExprKind::Integer(value), span }))
    }

    pub fn ident(span: Span, ident: Ident) -> (r: P<Expr>)
        ensures
            r@ == (Expr { kind: ExprKind::Ident(ident), span }),
    {
        P::new(Box::new(Expr { kind: ExprKind::Ident(ident), span }))
    }

    pub fn string(span: Span, string: String) -> (r: P<Expr>)
        ensures
            r@ == (Expr { kind: ExprKind::String(string), span }),
    {
        P::new(Box::new(Expr { kind: ExprKind::String(string), span }))
    }

    pub fn binary(span: Span, op: BinaryOp, left: P<Expr>, right: P<Expr>) -> (r: P<Expr>)
        ensures
            r@ == (Expr { kind: ExprKind::Binary { op, left, right }, span }),
    {
        P::new(Box::new(Expr { kind: ExprKind::Binary { op, left, right }, span }))
    }

    pub fn call(span: Span, expr: P<Expr>, args: Vec<P<Expr>>) -> (r: P<Expr>)
        ensures
            r@ == (Expr { kind: ExprKind::Call { expr, args }, span }),
    {
        P::new(Box::new(Expr { kind: ExprKind::Call { expr, args }, span }))
    }

    pub fn index(span: Span, expr: P<Expr>, index: P<Expr>) -> (r: P<Expr>)
        ensures
            r@ == (Expr { kind: ExprKind::Index { expr, index }, span }),
    {
        P::new(Box::new(Expr { kind: ExprKind::Index { expr, index }, span }))
    }

    pub fn kind(&self) -> (r: &ExprKind)
        ensures
            *r == self.kind,
    {
        &self.kind
    }

    pub fn span(&self) -> (r: &Span)
        ensures
            *r == self.span,
    {
        &self.span
    }


}

/// The shape of one statement.
pub enum StmtKind {
    Var { name: Ident, typ: P<Typespec>, expr: Option<P<Expr>> },
    Ret(P<Expr>),
    Expr(P<Expr>),
}

pub struct Stmt {
    pub kind: StmtKind,
    pub span: Span,
}

impl Stmt {
    pub fn var(span: Span, name: Ident, typ: P<Typespec>, expr: Option<P<Expr>>) -> (r: P<Stmt>)
        ensures
            r@ == (Stmt { kind: StmtKind::Var { name, typ, expr }, span }),
    {
        P::new(Box::new(Stmt { kind: StmtKind::Var { name, typ, expr }, span }))
    }

    pub fn ret(span: Span, expr: P<Expr>) -> (r: P<Stmt>)
        ensures
            r@ == (Stmt { kind: StmtKind::Ret(expr), span }),
    {
        P::new(Box::new(Stmt { kind: StmtKind::Ret(expr), span }))
    }

    pub fn expr(span: Span, expr: P<Expr>) -> (r: P<Stmt>)
        ensures
            r@ == (Stmt { kind: StmtKind::Expr(expr), span }),
    {
        P::new(Box::new(Stmt { kind: StmtKind::Expr(expr), span }))
    }

    pub fn kind(&self) -> (r: &StmtKind)
        ensures
            *r == self.kind,
    {
        &self.kind
    }

    pub fn span(&self) -> (r: &Span)
        ensures
            *r == self.span,
    {
        &self.span
    }

}

/// One lexical block: an ordered sequence of owned statements plus a span.
pub struct StmtBlock {
    pub stmts: Vec<P<Stmt>>,
    pub span: Span,
}

impl StmtBlock {
    pub fn new(span: Span) -> (r: Self)
        ensures
            r.stmts@ == Seq::<P<Stmt>>::empty(),
            r.span == span,
    {
        Self { stmts: Vec::new(), span }
    }

    pub fn add_stmt(&mut self, stmt: P<Stmt>)
        ensures
            final(self).stmts@ == old(self).stmts@.push(stmt),
            final(self).span == old(self).span,
    {
        self.stmts.push(stmt);
    }

    pub fn stmts(&self) -> (r: &[P<Stmt>])
        ensures
            r@ == self.stmts@,
    {
        self.stmts.as_slice()
    }

    pub fn span(&self) -> (r: &Span)
        ensures
            *r == self.span,
    {
        &self.span
    }

}

/// A syntactic type reference, exactly as written by the user: a bare name or
/// a pointer to an inner type reference. Resolution replaces it by a `TyId`.
pub enum TypespecKind {
    Name(Ident),
    Ptr(P<Typespec>),
}

pub struct Typespec {
    pub kind: TypespecKind,
    pub span: Span,
}

impl Typespec {
    pub fn name(span: Span, name: Ident) -> (r: P<Typespec>)
        ensures
            r@ == (Typespec { kind: TypespecKind::Name(name), span }),
    {
        P::new(Box::new(Typespec { kind: TypespecKind::Name(name), span }))
    }

    pub fn ptr(span: Span, base: P<Typespec>) -> (r: P<Typespec>)
        ensures
            r@ == (Typespec { kind: TypespecKind::Ptr(base), span }),
    {
        P::new(Box::new(Typespec { kind: TypespecKind::Ptr(base), span }))
    }

    pub fn kind(&self) -> (r: &TypespecKind)
        ensures
            *r == self.kind,
    {
        &self.kind
    }

    pub fn span(&self) -> (r: &Span)
        ensures
            *r == self.span,
    {
        &self.span
    }

}

/// One `name: type` pair in a function declaration's parameter list.
pub struct FunctionParam {
    pub name: Ident,
    pub ty: P<Typespec>,
    pub span: Span,
}

impl FunctionParam {
    pub fn new(span: Span, name: Ident, ty: P<Typespec>) -> (r: Self)
        ensures
            r == (FunctionParam { name, ty, span }),
    {
        Self { name, ty, span }
    }

    pub fn name(&self) -> (r: Ident)
        ensures
            r == self.name,
    {
        self.name
    }

    pub fn ty(&self) -> (r: &P<Typespec>)
        ensures
            *r == self.ty,
    {
        &self.ty
    }

    pub fn span(&self) -> (r: &Span)
        ensures
            *r == self.span,
    {
        &self.span
    }


}

/// The shape of one global declaration.
pub enum DeclKind {
    Function { params: Vec<FunctionParam>, return_type: Option<P<Typespec>>, body: StmtBlock },
}

pub struct Decl {
    pub name: Ident,
    pub kind: DeclKind,
    pub span: Span,
}

impl Decl {
    pub fn function(
        span: Span,
        name: Ident,
        params: Vec<FunctionParam>,
        return_type: Option<P<Typespec>>,
        body: StmtBlock,
    ) -> (r: P<Decl>)
        ensures
            r@ == (Decl {
                name,
                kind: DeclKind::Function { params, return_type, body },
                span,
            }),
    {
        P::new(Box::new(Decl {
            name,
            kind: DeclKind::Function { params, return_type, body },
            span,
        }))
    }

    pub fn name(&self) -> (r: Ident)
        ensures
            r == self.name,
    {
        self.name
    }

    pub fn kind(&self) -> (r: &DeclKind)
        ensures
            *r == self.kind,
    {
        &self.kind
    }

    pub fn span(&self) -> (r: &Span)
        ensures
            *r == self.span,
    {
        &self.span
    }


}

} // verus!

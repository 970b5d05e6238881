//! Syntax tree of Lightdown IR expressions.
use vstd::prelude::*;

use crate::ir::lexer::Span;

verus! {

#[derive(Clone, Debug, PartialEq, Eq)]
pub struct Node<T> {
    pub kind: T,
    pub span: Span,
}

impl<T> Node<T> {
    pub fn new(kind: T, span: Span) -> (r: Self)
        ensures
            r.kind == kind,
            r.span == span,
    {
        Node { kind, span }
    }
}

#[derive(Debug, PartialEq, Eq)]
pub struct Module {
    pub metadata: ModuleMetadata,
    pub body: Expr,
    pub span: Span,
}

#[derive(Clone, Debug, PartialEq, Eq)]
pub struct ModuleMetadata {
    pub version: String,
    pub span: Span,
}

pub type Expr = Node<ExprKind>;

#[derive(Debug, PartialEq, Eq)]
pub enum ExprKind {
    String(String),
    Bool(bool),
    Symbol(String),
    Call { callee: Box<Expr>, args: Vec<Expr> },
    Lambda { params: Vec<String>, body: Vec<Expr> },
}

/// The model of an expression: texts are character sequences.
pub type SpecExpr = Node<SpecExprKind>;

pub enum SpecExprKind {
    String(Seq<char>),
    Bool(bool),
    Symbol(Seq<char>),
    Call { callee: Box<SpecExpr>, args: Seq<SpecExpr> },
    Lambda { params: Seq<Seq<char>>, body: Seq<SpecExpr> },
}

pub struct SpecModule {
    pub version: Seq<char>,
    pub metadata_span: Span,
    pub body: SpecExpr,
    pub span: Span,
}

pub open spec fn strings_view(s: Seq<String>) -> Seq<Seq<char>> {
    s.map_values(|x: String| x@)
}

pub open spec fn expr_view(e: Expr) -> SpecExpr
    decreases e,
{
    Node { kind: expr_kind_view(e.kind), span: e.span }
}

pub open spec fn expr_kind_view(k: ExprKind) -> SpecExprKind
    decreases k,
{
    match k {
        ExprKind::String(s) => SpecExprKind::String(s@),
        ExprKind::Bool(b) => SpecExprKind::Bool(b),
        ExprKind::Symbol(s) => SpecExprKind::Symbol(s@),
        ExprKind::Call { callee, args } => SpecExprKind::Call {
            callee: Box::new(expr_view(*callee)),
            args: exprs_view(args@),
        },
        ExprKind::Lambda { params, body } => SpecExprKind::Lambda {
            params: strings_view(params@),
            body: exprs_view(body@),
        },
    }
}

pub open spec fn exprs_view(s: Seq<Expr>) -> Seq<SpecExpr>
    decreases s,
{
    if s.len() == 0 {
        Seq::empty()
    } else {
        exprs_view(s.drop_last()).push(expr_view(s.last()))
    }
}

pub proof fn lemma_exprs_view(s: Seq<Expr>)
    ensures
        exprs_view(s).len() == s.len(),
        forall|i: int| 0 <= i < s.len() ==> #[trigger] exprs_view(s)[i] == expr_view(s[i]),
    decreases s.len(),
{
    if s.len() > 0 {
        lemma_exprs_view(s.drop_last());
    }
}

pub proof fn lemma_exprs_view_push(s: Seq<Expr>, e: Expr)
    ensures
        exprs_view(s.push(e)) == exprs_view(s).push(expr_view(e)),
{
    assert(s.push(e).drop_last() =~= s);
}

pub proof fn lemma_exprs_view_take(s: Seq<Expr>, k: int)
    requires
        0 <= k <= s.len(),
    ensures
        exprs_view(s.take(k)) == exprs_view(s).take(k),
{
    lemma_exprs_view(s);
    lemma_exprs_view(s.take(k));
    assert(exprs_view(s.take(k)) =~= exprs_view(s).take(k));
}

pub proof fn lemma_strings_view_push(s: Seq<String>, e: String)
    ensures
        strings_view(s.push(e)) == strings_view(s).push(e@),
{
    assert(strings_view(s.push(e)) =~= strings_view(s).push(e@));
}

impl View for Module {
    type V = SpecModule;

    open spec fn view(&self) -> SpecModule {
        SpecModule {
            version: self.metadata.version@,
            metadata_span: self.metadata.span,
            body: expr_view(self.body),
            span: self.span,
        }
    }
}

/// A copy of an expression.
pub fn clone_expr(e: &Expr) -> (r: Expr)
    ensures
        expr_view(r) == expr_view(*e),
    decreases e,
{
    let kind = match &e.kind {
        ExprKind::String(s) => ExprKind::String(s.clone()),
        ExprKind::Bool(b) => ExprKind::Bool(*b),
        ExprKind::Symbol(s) => ExprKind::Symbol(s.clone()),
        ExprKind::Call { callee, args } => {
            let c = clone_expr(callee);
            ExprKind::Call { callee: Box::new(c), args: clone_exprs(args) }
        },
        ExprKind::Lambda { params, body } => {
            let mut ps: Vec<String> = Vec::new();
            let mut i: usize = 0;
            while i < params.len()
                invariant
                    0 <= i <= params@.len(),
                    strings_view(ps@) == strings_view(params@.take(i as int)),
                decreases params@.len() - i,
            {
                proof {
                    lemma_strings_view_push(ps@, params@[i as int]);
                    assert(params@.take(i + 1) =~= params@.take(i as int).push(params@[i as int]));
                    lemma_strings_view_push(params@.take(i as int), params@[i as int]);
                }
                ps.push(params[i].clone());
                i += 1;
            }
            assert(params@.take(params@.len() as int) =~= params@);
            ExprKind::Lambda { params: ps, body: clone_exprs(body) }
        },
    };
    Node { kind, span: e.span }
}

/// A copy of a list of expressions.
pub fn clone_exprs(v: &Vec<Expr>) -> (r: Vec<Expr>)
    ensures
        exprs_view(r@) == exprs_view(v@),
    decreases v,
{
    let mut out: Vec<Expr> = Vec::new();
    let mut i: usize = 0;
    while i < v.len()
        invariant
            0 <= i <= v@.len(),
            exprs_view(out@) == exprs_view(v@.take(i as int)),
        decreases v@.len() - i,
    {
        let e = clone_expr(&v[i]);
        proof {
            lemma_exprs_view_push(out@, e);
            assert(v@.take(i + 1) =~= v@.take(i as int).push(v@[i as int]));
            lemma_exprs_view_push(v@.take(i as int), v@[i as int]);
        }
        out.push(e);
        i += 1;
    }
    assert(v@.take(v@.len() as int) =~= v@);
    out
}

} // verus!

//! The expression and statement tree that the external parser produces and
//! the evaluator consumes.

use vstd::prelude::*;
use std::rc::Rc;

verus! {

/// An interned name, used both as a variable key and as a function name.
/// Equality is structural (string equality).
#[derive(Debug, PartialEq)]
pub struct Ident(pub String);

/// A duration literal, carried through evaluation as opaque text.
#[derive(Debug, PartialEq)]
pub struct Duration(pub String);

/// One `lhs = rhs` pair of an assignment statement.
#[derive(Debug, PartialEq)]
pub struct Assignment {
    pub lhs: Ident,
    pub rhs: Expr,
}

/// A function definition: binds `ident` to a closure capturing the current
/// scope. The parameter list and body are shared read-only with every
/// closure value made from this definition.
#[derive(Debug, PartialEq)]
pub struct FnDef {
    pub ident: Ident,
    pub args: Rc<Vec<Ident>>,
    pub body: Rc<Expr>,
}

/// A statement: either a sequence of assignments, each evaluated and bound
/// left-to-right, or a function definition.
#[derive(Debug, PartialEq)]
pub enum Stmt {
    Assign(Vec<Assignment>),
    FnDef(FnDef),
}

/// An expression node. Expressions have no side effects and evaluate to a
/// `Value`.
#[derive(Debug, PartialEq)]
pub enum Expr {
    /// A variable reference.
    Ident(Ident),
    /// A function call: name plus argument expressions.
    Call(Ident, Vec<Expr>),
    /// N-ary boolean disjunction.
    Or(Vec<Expr>),
    /// N-ary boolean conjunction.
    And(Vec<Expr>),
    /// `thresh(n, list)`.
    Thresh(Box<Expr>, Box<Expr>),
    /// A code block: statements plus an optional trailing return expression.
    Block(Vec<Stmt>, Option<Box<Expr>>),
    /// A probability-weighted expression, `prob@expr`.
    WithProb(Box<Expr>, Box<Expr>),
    /// An array literal.
    Array(Vec<Expr>),
    /// Array index access, `array[index]`.
    ArrayAccess(Box<Expr>, Box<Expr>),
    /// Child derivation: parent, path segments, and a wildcard flag.
    ChildDerive(Box<Expr>, Vec<Expr>, bool),
    /// A public key literal, as source text.
    PubKey(String),
    /// A hex-encoded hash literal.
    Hash(String),
    /// An unsigned integer literal.
    Number(usize),
    /// A duration literal.
    Duration(Duration),
    /// An absolute date-time literal, as source text.
    DateTime(String),
}

/// Structural size of an expression, the measure by which evaluation of
/// sub-expressions terminates. Always at least 1.
pub open spec fn esize(e: Expr) -> nat
    decreases e,
{
    match e {
        Expr::Ident(_) => 1,
        Expr::Call(_, es) => 1 + esize_list(es@),
        Expr::Or(es) => 1 + esize_list(es@),
        Expr::And(es) => 1 + esize_list(es@),
        Expr::Thresh(a, b) => 1 + esize(*a) + esize(*b),
        Expr::Block(ss, ret) => 1 + ssize_list(ss@) + (match ret {
            Some(r) => esize(*r),
            None => 0,
        }),
        Expr::WithProb(p, x) => 1 + esize(*p) + esize(*x),
        Expr::Array(es) => 1 + esize_list(es@),
        Expr::ArrayAccess(a, i) => 1 + esize(*a) + esize(*i),
        Expr::ChildDerive(p, path, _) => 1 + esize(*p) + esize_list(path@),
        Expr::PubKey(_) => 1,
        Expr::Hash(_) => 1,
        Expr::Number(_) => 1,
        Expr::Duration(_) => 1,
        Expr::DateTime(_) => 1,
    }
}

/// Combined size of a sequence of expressions.
pub open spec fn esize_list(es: Seq<Expr>) -> nat
    decreases es,
{
    if es.len() == 0 {
        0
    } else {
        esize(es[0]) + esize_list(es.subrange(1, es.len() as int))
    }
}

/// Size of a statement. A function definition counts 1: its body is not
/// evaluated when the definition executes.
pub open spec fn ssize(s: Stmt) -> nat
    decreases s,
{
    match s {
        Stmt::Assign(asgs) => 1 + assigns_size(asgs@),
        Stmt::FnDef(_) => 1,
    }
}

/// Combined size of a sequence of assignments.
pub open spec fn assigns_size(asgs: Seq<Assignment>) -> nat
    decreases asgs,
{
    if asgs.len() == 0 {
        0
    } else {
        1 + esize(asgs[0].rhs) + assigns_size(asgs.subrange(1, asgs.len() as int))
    }
}

/// Combined size of a sequence of statements.
pub open spec fn ssize_list(ss: Seq<Stmt>) -> nat
    decreases ss,
{
    if ss.len() == 0 {
        0
    } else {
        ssize(ss[0]) + ssize_list(ss.subrange(1, ss.len() as int))
    }
}

/// Every element of a sequence weighs no more than the whole sequence.
pub proof fn lemma_esize_list_bound(es: Seq<Expr>, i: int)
    requires
        0 <= i < es.len(),
    ensures
        esize(es[i]) <= esize_list(es),
    decreases es,
{
    if i > 0 {
        assert(es.subrange(1, es.len() as int)[i - 1] == es[i]);
        lemma_esize_list_bound(es.subrange(1, es.len() as int), i - 1);
    } else {
        assert(es[0] == es[i]);
    }
}

/// Every statement weighs no more than the sequence that holds it.
pub proof fn lemma_ssize_list_bound(ss: Seq<Stmt>, i: int)
    requires
        0 <= i < ss.len(),
    ensures
        ssize(ss[i]) <= ssize_list(ss),
    decreases ss,
{
    if i > 0 {
        assert(ss.subrange(1, ss.len() as int)[i - 1] == ss[i]);
        lemma_ssize_list_bound(ss.subrange(1, ss.len() as int), i - 1);
    }
}

/// The right-hand side of every assignment weighs strictly less than the
/// assignment sequence that holds it.
pub proof fn lemma_assigns_size_bound(asgs: Seq<Assignment>, i: int)
    requires
        0 <= i < asgs.len(),
    ensures
        esize(asgs[i].rhs) < assigns_size(asgs),
    decreases asgs,
{
    if i > 0 {
        assert(asgs.subrange(1, asgs.len() as int)[i - 1] == asgs[i]);
        lemma_assigns_size_bound(asgs.subrange(1, asgs.len() as int), i - 1);
    }
}

impl Ident {
    /// Structural equality of names.
    pub fn same(&self, other: &Ident) -> (r: bool)
        ensures
            r == (self.0@ == other.0@),
    {
        self.0 == other.0
    }

    /// A fresh copy of this name.
    pub fn duplicate(&self) -> (r: Ident)
        ensures
            r.0@ == self.0@,
    {
        Ident(self.0.clone())
    }
}

} // verus!

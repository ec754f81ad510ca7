use vstd::prelude::*;
use vstd::string::*;
pub use crate::env::Env;
pub use crate::parser::Program;

verus! {

/// The primitive binary operators of the language.
#[derive(Debug, Clone, Copy, PartialEq, Eq, Structural)]
pub enum PrimOp {
    Add,
    Sub,
    Mul,
    Div,
    Eq,
    Lt,
    Gt,
}

/// A term of the language: an owned, finite tree.
#[derive(Debug, PartialEq, Eq)]
pub enum Term {
    Var(String),
    Abs(String, Box<Term>),
    App(Box<Term>, Box<Term>),
    Int(i64),
    Bool(bool),
    If(Box<Term>, Box<Term>, Box<Term>),
    PrimOp(PrimOp, Box<Term>, Box<Term>),
}

/// The mathematical model of a term: names are sequences of characters.
pub enum STerm {
    Var(Seq<char>),
    Abs(Seq<char>, Box<STerm>),
    App(Box<STerm>, Box<STerm>),
    Int(i64),
    Bool(bool),
    If(Box<STerm>, Box<STerm>, Box<STerm>),
    PrimOp(PrimOp, Box<STerm>, Box<STerm>),
}

pub open spec fn term_view(t: Term) -> STerm
    decreases t,
{
    match t {
        Term::Var(x) => STerm::Var(x@),
        Term::Abs(p, b) => STerm::Abs(p@, Box::new(term_view(*b))),
        Term::App(l, r) => STerm::App(Box::new(term_view(*l)), Box::new(term_view(*r))),
        Term::Int(n) => STerm::Int(n),
        Term::Bool(v) => STerm::Bool(v),
        Term::If(c, a, e) => STerm::If(
            Box::new(term_view(*c)),
            Box::new(term_view(*a)),
            Box::new(term_view(*e)),
        ),
        Term::PrimOp(op, l, r) => STerm::PrimOp(
            op,
            Box::new(term_view(*l)),
            Box::new(term_view(*r)),
        ),
    }
}

impl View for Term {
    type V = STerm;

    open spec fn view(&self) -> STerm {
        term_view(*self)
    }
}

/// The number of nodes of a term.
pub open spec fn size(t: STerm) -> nat
    decreases t,
{
    match t {
        STerm::Var(_) => 1,
        STerm::Abs(_, b) => 1 + size(*b),
        STerm::App(l, r) => 1 + size(*l) + size(*r),
        STerm::Int(_) => 1,
        STerm::Bool(_) => 1,
        STerm::If(c, a, e) => 1 + size(*c) + size(*a) + size(*e),
        STerm::PrimOp(_, l, r) => 1 + size(*l) + size(*r),
    }
}

/// A deep copy of a term, with the same model.
pub fn copy_term(t: &Term) -> (r: Term)
    ensures
        r@ == t@,
    decreases t,
{
    match t {
        Term::Var(x) => Term::Var(x.clone()),
        Term::Abs(p, b) => Term::Abs(p.clone(), Box::new(copy_term(b))),
        Term::App(l, r) => Term::App(Box::new(copy_term(l)), Box::new(copy_term(r))),
        Term::Int(n) => Term::Int(*n),
        Term::Bool(v) => Term::Bool(*v),
        Term::If(c, a, e) => Term::If(
            Box::new(copy_term(c)),
            Box::new(copy_term(a)),
            Box::new(copy_term(e)),
        ),
        Term::PrimOp(op, l, r) => Term::PrimOp(*op, Box::new(copy_term(l)), Box::new(copy_term(r))),
    }
}

/// Builds a variable.
pub fn var(name: &str) -> (r: Term)
    ensures
        r@ == STerm::Var(name@),
{
    Term::Var(name.to_string())
}

/// Builds an abstraction.
pub fn abs(param: &str, body: Term) -> (r: Term)
    ensures
        r@ == STerm::Abs(param@, Box::new(body@)),
{
    Term::Abs(param.to_string(), Box::new(body))
}

/// Builds an application.
pub fn app(t1: Term, t2: Term) -> (r: Term)
    ensures
        r@ == STerm::App(Box::new(t1@), Box::new(t2@)),
{
    Term::App(Box::new(t1), Box::new(t2))
}

/// Builds an integer literal.
pub fn i(n: i64) -> (r: Term)
    ensures
        r@ == STerm::Int(n),
{
    Term::Int(n)
}

/// Builds a boolean literal.
pub fn b(v: bool) -> (r: Term)
    ensures
        r@ == STerm::Bool(v),
{
    Term::Bool(v)
}

/// Builds a conditional.
pub fn ifte(cond: Term, t1: Term, t2: Term) -> (r: Term)
    ensures
        r@ == STerm::If(Box::new(cond@), Box::new(t1@), Box::new(t2@)),
{
    Term::If(Box::new(cond), Box::new(t1), Box::new(t2))
}

/// Builds a primitive operation.
pub fn primop(op: PrimOp, t1: Term, t2: Term) -> (r: Term)
    ensures
        r@ == STerm::PrimOp(op, Box::new(t1@), Box::new(t2@)),
{
    Term::PrimOp(op, Box::new(t1), Box::new(t2))
}

/// Builds `t1 + t2`.
pub fn add(t1: Term, t2: Term) -> (r: Term)
    ensures
        r@ == STerm::PrimOp(PrimOp::Add, Box::new(t1@), Box::new(t2@)),
{
    primop(PrimOp::Add, t1, t2)
}

/// Builds `t1 - t2`.
pub fn sub(t1: Term, t2: Term) -> (r: Term)
    ensures
        r@ == STerm::PrimOp(PrimOp::Sub, Box::new(t1@), Box::new(t2@)),
{
    primop(PrimOp::Sub, t1, t2)
}

/// Builds `t1 * t2`.
pub fn mul(t1: Term, t2: Term) -> (r: Term)
    ensures
        r@ == STerm::PrimOp(PrimOp::Mul, Box::new(t1@), Box::new(t2@)),
{
    primop(PrimOp::Mul, t1, t2)
}

/// Builds `t1 / t2`.
pub fn div(t1: Term, t2: Term) -> (r: Term)
    ensures
        r@ == STerm::PrimOp(PrimOp::Div, Box::new(t1@), Box::new(t2@)),
{
    primop(PrimOp::Div, t1, t2)
}

/// Builds `t1 == t2`.
pub fn eq(t1: Term, t2: Term) -> (r: Term)
    ensures
        r@ == STerm::PrimOp(PrimOp::Eq, Box::new(t1@), Box::new(t2@)),
{
    primop(PrimOp::Eq, t1, t2)
}

/// Builds `t1 < t2`.
pub fn lt(t1: Term, t2: Term) -> (r: Term)
    ensures
        r@ == STerm::PrimOp(PrimOp::Lt, Box::new(t1@), Box::new(t2@)),
{
    primop(PrimOp::Lt, t1, t2)
}

/// Builds `t1 > t2`.
pub fn gt(t1: Term, t2: Term) -> (r: Term)
    ensures
        r@ == STerm::PrimOp(PrimOp::Gt, Box::new(t1@), Box::new(t2@)),
{
    primop(PrimOp::Gt, t1, t2)
}

} // verus!

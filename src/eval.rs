use vstd::prelude::*;
pub use crate::env::empty_env;
pub use crate::subst::{free_variables, substitute};
use crate::env::Env;
use crate::subst::subst;
use crate::term::{copy_term, PrimOp, STerm, Term};

verus! {

/// Why an evaluation failed.
#[derive(Debug, Clone, Copy, PartialEq, Eq, Structural)]
pub enum EvalError {
    /// An integer division by zero.
    DivisionByZero,
    /// An integer result outside the 64-bit signed range.
    Overflow,
    /// The nesting of reduction steps went past the allowed depth.
    StepLimitExceeded,
}

/// The model of an evaluation outcome.
pub open spec fn outcome(r: Result<Term, EvalError>) -> Result<STerm, EvalError> {
    match r {
        Ok(t) => Ok(t@),
        Err(e) => Err(e),
    }
}

/// The result of applying a primitive operator to two evaluated operands.
pub open spec fn prim_result(op: PrimOp, l: STerm, r: STerm) -> Result<STerm, EvalError> {
    match (l, r) {
        (STerm::Int(a), STerm::Int(b)) => match op {
            PrimOp::Add => match a.checked_add(b) {
                Some(n) => Ok(STerm::Int(n)),
                None => Err(EvalError::Overflow),
            },
            PrimOp::Sub => match a.checked_sub(b) {
                Some(n) => Ok(STerm::Int(n)),
                None => Err(EvalError::Overflow),
            },
            PrimOp::Mul => match a.checked_mul(b) {
                Some(n) => Ok(STerm::Int(n)),
                None => Err(EvalError::Overflow),
            },
            PrimOp::Div => if b == 0 {
                Err(EvalError::DivisionByZero)
            } else {
                match a.checked_div(b) {
                    Some(n) => Ok(STerm::Int(n)),
                    None => Err(EvalError::Overflow),
                }
            },
            PrimOp::Eq => Ok(STerm::Bool(a == b)),
            PrimOp::Lt => Ok(STerm::Bool(a < b)),
            PrimOp::Gt => Ok(STerm::Bool(a > b)),
        },
        (STerm::Bool(a), STerm::Bool(b)) => if op == PrimOp::Eq {
            Ok(STerm::Bool(a == b))
        } else {
            Ok(STerm::PrimOp(op, Box::new(l), Box::new(r)))
        },
        _ => Ok(STerm::PrimOp(op, Box::new(l), Box::new(r))),
    }
}

/// Call-by-value evaluation of `t` under `env`, allowed `fuel` nested reduction steps.
pub open spec fn eval_spec(env: Map<Seq<char>, STerm>, t: STerm, fuel: nat) -> Result<
    STerm,
    EvalError,
>
    decreases fuel,
{
    if fuel == 0 {
        Err(EvalError::StepLimitExceeded)
    } else {
        let f = (fuel - 1) as nat;
        match t {
            STerm::Var(x) => if env.contains_key(x) {
                Ok(env[x])
            } else {
                Ok(STerm::Var(x))
            },
            STerm::Abs(p, b) => match eval_spec(env, *b, f) {
                Ok(v) => Ok(STerm::Abs(p, Box::new(v))),
                Err(e) => Err(e),
            },
            STerm::App(l, r) => match eval_spec(env, *l, f) {
                Err(e) => Err(e),
                Ok(lv) => match eval_spec(env, *r, f) {
                    Err(e) => Err(e),
                    Ok(rv) => match lv {
                        STerm::Abs(p, body) => eval_spec(env.remove(p), subst(*body, p, rv), f),
                        _ => Ok(STerm::App(Box::new(lv), Box::new(rv))),
                    },
                },
            },
            STerm::Int(n) => Ok(STerm::Int(n)),
            STerm::Bool(v) => Ok(STerm::Bool(v)),
            STerm::If(c, a, e) => match eval_spec(env, *c, f) {
                Err(err) => Err(err),
                Ok(STerm::Bool(true)) => eval_spec(env, *a, f),
                Ok(STerm::Bool(false)) => eval_spec(env, *e, f),
                Ok(cv) => Ok(STerm::If(Box::new(cv), a, e)),
            },
            STerm::PrimOp(op, l, r) => match eval_spec(env, *l, f) {
                Err(e) => Err(e),
                Ok(lv) => match eval_spec(env, *r, f) {
                    Err(e) => Err(e),
                    Ok(rv) => prim_result(op, lv, rv),
                },
            },
        }
    }
}

/// The nesting depth of reduction steps that `eval` allows.
pub const MAX_DEPTH: u64 = 0xffff_ffff_ffff_ffff;

/// Applies a primitive operator to two evaluated operands.
fn apply_prim(op: PrimOp, l: Term, r: Term) -> (res: Result<Term, EvalError>)
    ensures
        outcome(res) == prim_result(op, l@, r@),
{
    match (&l, &r) {
        (Term::Int(a), Term::Int(b)) => {
            let (a, b) = (*a, *b);
            match op {
                PrimOp::Add => match a.checked_add(b) {
                    Some(n) => Ok(Term::Int(n)),
                    None => Err(EvalError::Overflow),
                },
                PrimOp::Sub => match a.checked_sub(b) {
                    Some(n) => Ok(Term::Int(n)),
                    None => Err(EvalError::Overflow),
                },
                PrimOp::Mul => match a.checked_mul(b) {
                    Some(n) => Ok(Term::Int(n)),
                    None => Err(EvalError::Overflow),
                },
                PrimOp::Div => {
                    if b == 0 {
                        Err(EvalError::DivisionByZero)
                    } else {
                        match a.checked_div(b) {
                            Some(n) => Ok(Term::Int(n)),
                            None => Err(EvalError::Overflow),
                        }
                    }
                },
                PrimOp::Eq => Ok(Term::Bool(a == b)),
                PrimOp::Lt => Ok(Term::Bool(a < b)),
                PrimOp::Gt => Ok(Term::Bool(a > b)),
            }
        },
        (Term::Bool(a), Term::Bool(b)) => {
            if op == PrimOp::Eq {
                Ok(Term::Bool(*a == *b))
            } else {
                Ok(Term::PrimOp(op, Box::new(l), Box::new(r)))
            }
        },
        _ => Ok(Term::PrimOp(op, Box::new(l), Box::new(r))),
    }
}

/// Evaluates `term` under `env`, allowing at most `fuel` nested reduction steps.
pub fn eval_with_limit(env: &Env, term: &Term, fuel: u64) -> (r: Result<Term, EvalError>)
    ensures
        outcome(r) == eval_spec(env@, term@, fuel as nat),
    decreases fuel,
{
    if fuel == 0 {
        return Err(EvalError::StepLimitExceeded);
    }
    let f = fuel - 1;
    match term {
        Term::App(t1, t2) => {
            let l = eval_with_limit(env, t1, f)?;
            let r = eval_with_limit(env, t2, f)?;
            match l {
                Term::Abs(param, body) => {
                    let inner = env.without(&param);
                    let next = substitute(&body, param.as_str(), &r);
                    eval_with_limit(&inner, &next, f)
                },
                _ => Ok(Term::App(Box::new(l), Box::new(r))),
            }
        },
        Term::Abs(param, body) => {
            let v = eval_with_limit(env, body, f)?;
            Ok(Term::Abs(param.clone(), Box::new(v)))
        },
        Term::Var(x) => match env.get(x) {
            Some(t) => Ok(t),
            None => Ok(Term::Var(x.clone())),
        },
        Term::Int(n) => Ok(Term::Int(*n)),
        Term::Bool(v) => Ok(Term::Bool(*v)),
        Term::If(cond, t1, t2) => {
            let c = eval_with_limit(env, cond, f)?;
            match c {
                Term::Bool(true) => eval_with_limit(env, t1, f),
                Term::Bool(false) => eval_with_limit(env, t2, f),
                _ => Ok(Term::If(Box::new(c), Box::new(copy_term(t1)), Box::new(copy_term(t2)))),
            }
        },
        Term::PrimOp(op, t1, t2) => {
            let l = eval_with_limit(env, t1, f)?;
            let r = eval_with_limit(env, t2, f)?;
            apply_prim(*op, l, r)
        },
    }
}

/// Evaluates `term` under `env` by call-by-value reduction.
pub fn eval(env: &Env, term: &Term) -> (r: Result<Term, EvalError>)
    ensures
        outcome(r) == eval_spec(env@, term@, MAX_DEPTH as nat),
{
    eval_with_limit(env, term, MAX_DEPTH)
}

/// More fuel changes nothing once the step limit is not reached.
pub proof fn lemma_eval_fuel_mono(env: Map<Seq<char>, STerm>, t: STerm, f1: nat, f2: nat)
    requires
        f1 <= f2,
        eval_spec(env, t, f1) != Err::<STerm, EvalError>(EvalError::StepLimitExceeded),
    ensures
        eval_spec(env, t, f2) == eval_spec(env, t, f1),
    decreases f1,
{
    if f1 > 0 {
        let g1 = (f1 - 1) as nat;
        let g2 = (f2 - 1) as nat;
        match t {
            STerm::Abs(p, b) => {
                lemma_eval_fuel_mono(env, *b, g1, g2);
            },
            STerm::App(l, r) => {
                lemma_eval_fuel_mono(env, *l, g1, g2);
                if let Ok(lv) = eval_spec(env, *l, g1) {
                    lemma_eval_fuel_mono(env, *r, g1, g2);
                    if let Ok(rv) = eval_spec(env, *r, g1) {
                        if let STerm::Abs(p, body) = lv {
                            lemma_eval_fuel_mono(env.remove(p), subst(*body, p, rv), g1, g2);
                        }
                    }
                }
            },
            STerm::If(c, a, e) => {
                lemma_eval_fuel_mono(env, *c, g1, g2);
                match eval_spec(env, *c, g1) {
                    Ok(STerm::Bool(true)) => {
                        lemma_eval_fuel_mono(env, *a, g1, g2);
                    },
                    Ok(STerm::Bool(false)) => {
                        lemma_eval_fuel_mono(env, *e, g1, g2);
                    },
                    _ => {},
                }
            },
            STerm::PrimOp(_, l, r) => {
                lemma_eval_fuel_mono(env, *l, g1, g2);
                if let Ok(_) = eval_spec(env, *l, g1) {
                    lemma_eval_fuel_mono(env, *r, g1, g2);
                }
            },
            _ => {},
        }
    }
}

/// Evaluation is deterministic: two runs on the same environment and term that both finish
/// within their step limits give the same result, whatever the limits.
pub proof fn lemma_eval_deterministic(env: Map<Seq<char>, STerm>, t: STerm, f1: nat, f2: nat)
    requires
        eval_spec(env, t, f1) != Err::<STerm, EvalError>(EvalError::StepLimitExceeded),
        eval_spec(env, t, f2) != Err::<STerm, EvalError>(EvalError::StepLimitExceeded),
    ensures
        eval_spec(env, t, f1) == eval_spec(env, t, f2),
{
    if f1 <= f2 {
        lemma_eval_fuel_mono(env, t, f1, f2);
    } else {
        lemma_eval_fuel_mono(env, t, f2, f1);
    }
}

/// Evaluating a result again, under no bindings, gives it back unchanged.
pub proof fn lemma_eval_idempotent(t: STerm, f: nat, v: STerm)
    requires
        eval_spec(Map::empty(), t, f) == Ok::<STerm, EvalError>(v),
    ensures
        eval_spec(Map::empty(), v, f) == Ok::<STerm, EvalError>(v),
    decreases f,
{
    let env = Map::<Seq<char>, STerm>::empty();
    let g = (f - 1) as nat;
    match t {
        STerm::Abs(p, b) => {
            let bv = eval_spec(env, *b, g)->Ok_0;
            lemma_eval_idempotent(*b, g, bv);
        },
        STerm::App(l, r) => {
            let lv = eval_spec(env, *l, g)->Ok_0;
            let rv = eval_spec(env, *r, g)->Ok_0;
            lemma_eval_idempotent(*l, g, lv);
            lemma_eval_idempotent(*r, g, rv);
            if let STerm::Abs(p, body) = lv {
                assert(env.remove(p) =~= env);
                lemma_eval_idempotent(subst(*body, p, rv), g, v);
                lemma_eval_fuel_mono(env, v, g, f);
            }
        },
        STerm::If(c, a, e) => {
            let cv = eval_spec(env, *c, g)->Ok_0;
            lemma_eval_idempotent(*c, g, cv);
            match cv {
                STerm::Bool(true) => {
                    lemma_eval_idempotent(*a, g, v);
                    lemma_eval_fuel_mono(env, v, g, f);
                },
                STerm::Bool(false) => {
                    lemma_eval_idempotent(*e, g, v);
                    lemma_eval_fuel_mono(env, v, g, f);
                },
                _ => {},
            }
        },
        STerm::PrimOp(op, l, r) => {
            let lv = eval_spec(env, *l, g)->Ok_0;
            let rv = eval_spec(env, *r, g)->Ok_0;
            lemma_eval_idempotent(*l, g, lv);
            lemma_eval_idempotent(*r, g, rv);
        },
        _ => {},
    }
}

} // verus!

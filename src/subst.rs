use vstd::prelude::*;
use vstd::string::*;
use crate::names::{
    contains_name, first_free_name, fresh_name_for, insert_all_names, insert_name,
    lemma_fresh_name_for, name_set, remove_name,
};
use crate::term::{size, STerm, Term};

verus! {

/// The variables that occur free in a term.
pub open spec fn free_vars(t: STerm) -> Set<Seq<char>>
    decreases t,
{
    match t {
        STerm::Var(x) => set![x],
        STerm::Abs(p, b) => free_vars(*b).remove(p),
        STerm::App(l, r) => free_vars(*l).union(free_vars(*r)),
        STerm::Int(_) => Set::empty(),
        STerm::Bool(_) => Set::empty(),
        STerm::If(c, a, e) => free_vars(*c).union(free_vars(*a)).union(free_vars(*e)),
        STerm::PrimOp(_, l, r) => free_vars(*l).union(free_vars(*r)),
    }
}

/// Every name that occurs in a term, free, bound or as a binder.
pub open spec fn all_vars(t: STerm) -> Set<Seq<char>>
    decreases t,
{
    match t {
        STerm::Var(x) => set![x],
        STerm::Abs(p, b) => all_vars(*b).insert(p),
        STerm::App(l, r) => all_vars(*l).union(all_vars(*r)),
        STerm::Int(_) => Set::empty(),
        STerm::Bool(_) => Set::empty(),
        STerm::If(c, a, e) => all_vars(*c).union(all_vars(*a)).union(all_vars(*e)),
        STerm::PrimOp(_, l, r) => all_vars(*l).union(all_vars(*r)),
    }
}

/// Replaces the free occurrences of `from` by the variable `to`, binders untouched.
pub open spec fn rename(t: STerm, from: Seq<char>, to: Seq<char>) -> STerm
    decreases t,
{
    match t {
        STerm::Var(x) => if x == from {
            STerm::Var(to)
        } else {
            STerm::Var(x)
        },
        STerm::Abs(p, b) => if p == from {
            STerm::Abs(p, b)
        } else {
            STerm::Abs(p, Box::new(rename(*b, from, to)))
        },
        STerm::App(l, r) => STerm::App(
            Box::new(rename(*l, from, to)),
            Box::new(rename(*r, from, to)),
        ),
        STerm::Int(n) => STerm::Int(n),
        STerm::Bool(v) => STerm::Bool(v),
        STerm::If(c, a, e) => STerm::If(
            Box::new(rename(*c, from, to)),
            Box::new(rename(*a, from, to)),
            Box::new(rename(*e, from, to)),
        ),
        STerm::PrimOp(op, l, r) => STerm::PrimOp(
            op,
            Box::new(rename(*l, from, to)),
            Box::new(rename(*r, from, to)),
        ),
    }
}

pub proof fn lemma_rename_size(t: STerm, from: Seq<char>, to: Seq<char>)
    ensures
        size(rename(t, from, to)) == size(t),
    decreases t,
{
    match t {
        STerm::Abs(p, b) => {
            lemma_rename_size(*b, from, to);
        },
        STerm::App(l, r) => {
            lemma_rename_size(*l, from, to);
            lemma_rename_size(*r, from, to);
        },
        STerm::If(c, a, e) => {
            lemma_rename_size(*c, from, to);
            lemma_rename_size(*a, from, to);
            lemma_rename_size(*e, from, to);
        },
        STerm::PrimOp(_, l, r) => {
            lemma_rename_size(*l, from, to);
            lemma_rename_size(*r, from, to);
        },
        _ => {},
    }
}

/// Capture-avoiding substitution of `r` for the free occurrences of `x` in `t`.
pub open spec fn subst(t: STerm, x: Seq<char>, r: STerm) -> STerm
    decreases size(t) via subst_decreases
{
    match t {
        STerm::Var(y) => if y == x {
            r
        } else {
            STerm::Var(y)
        },
        STerm::Abs(p, b) => if p == x {
            STerm::Abs(p, b)
        } else if free_vars(r).contains(p) {
            let f = fresh_name_for(p, all_vars(t).union(all_vars(r)));
            STerm::Abs(f, Box::new(subst(rename(*b, p, f), x, r)))
        } else {
            STerm::Abs(p, Box::new(subst(*b, x, r)))
        },
        STerm::App(l, a) => STerm::App(Box::new(subst(*l, x, r)), Box::new(subst(*a, x, r))),
        STerm::Int(n) => STerm::Int(n),
        STerm::Bool(v) => STerm::Bool(v),
        STerm::If(c, a, e) => STerm::If(
            Box::new(subst(*c, x, r)),
            Box::new(subst(*a, x, r)),
            Box::new(subst(*e, x, r)),
        ),
        STerm::PrimOp(op, l, a) => STerm::PrimOp(
            op,
            Box::new(subst(*l, x, r)),
            Box::new(subst(*a, x, r)),
        ),
    }
}

#[via_fn]
proof fn subst_decreases(t: STerm, x: Seq<char>, r: STerm) {
    if let STerm::Abs(p, b) = t {
        let f = fresh_name_for(p, all_vars(t).union(all_vars(r)));
        lemma_rename_size(*b, p, f);
    }
}

/// Collects the variables that occur free in a term.
pub fn free_variables(term: &Term) -> (r: Vec<String>)
    ensures
        name_set(r@) == free_vars(term@),
    decreases term,
{
    match term {
        Term::Var(x) => {
            let mut set: Vec<String> = Vec::new();
            insert_name(&mut set, x.clone());
            proof {
                assert(name_set(Seq::<String>::empty()) =~= Set::empty());
                assert(name_set(set@) =~= free_vars(term@));
            }
            set
        },
        Term::Abs(param, body) => {
            let set = free_variables(body);
            remove_name(set, param)
        },
        Term::App(t1, t2) => {
            let mut set = free_variables(t1);
            insert_all_names(&mut set, free_variables(t2));
            set
        },
        Term::Int(_) | Term::Bool(_) => {
            let set: Vec<String> = Vec::new();
            proof {
                assert(name_set(set@) =~= free_vars(term@));
            }
            set
        },
        Term::If(cond, t1, t2) => {
            let mut set = free_variables(cond);
            insert_all_names(&mut set, free_variables(t1));
            insert_all_names(&mut set, free_variables(t2));
            set
        },
        Term::PrimOp(_, t1, t2) => {
            let mut set = free_variables(t1);
            insert_all_names(&mut set, free_variables(t2));
            set
        },
    }
}

/// Collects every variable of a term, free and bound.
pub fn collect_all_vars(term: &Term) -> (r: Vec<String>)
    ensures
        name_set(r@) == all_vars(term@),
    decreases term,
{
    match term {
        Term::Var(x) => {
            let mut vars: Vec<String> = Vec::new();
            insert_name(&mut vars, x.clone());
            proof {
                assert(name_set(Seq::<String>::empty()) =~= Set::empty());
                assert(name_set(vars@) =~= all_vars(term@));
            }
            vars
        },
        Term::Abs(param, body) => {
            let mut vars = collect_all_vars(body);
            insert_name(&mut vars, param.clone());
            vars
        },
        Term::App(t1, t2) => {
            let mut vars = collect_all_vars(t1);
            insert_all_names(&mut vars, collect_all_vars(t2));
            vars
        },
        Term::Int(_) | Term::Bool(_) => {
            let vars: Vec<String> = Vec::new();
            proof {
                assert(name_set(vars@) =~= all_vars(term@));
            }
            vars
        },
        Term::If(cond, t1, t2) => {
            let mut vars = collect_all_vars(cond);
            insert_all_names(&mut vars, collect_all_vars(t1));
            insert_all_names(&mut vars, collect_all_vars(t2));
            vars
        },
        Term::PrimOp(_, t1, t2) => {
            let mut vars = collect_all_vars(t1);
            insert_all_names(&mut vars, collect_all_vars(t2));
            vars
        },
    }
}

/// The first of `base`, `base_1`, `base_2`, ... that occurs in neither term.
pub fn fresh_name(base: &String, term: &Term, replacement: &Term) -> (r: String)
    ensures
        r@ == fresh_name_for(base@, all_vars(term@).union(all_vars(replacement@))),
        !all_vars(term@).contains(r@),
        !all_vars(replacement@).contains(r@),
{
    proof {
        lemma_fresh_name_avoids(base@, term@, replacement@);
    }
    let mut all = collect_all_vars(term);
    insert_all_names(&mut all, collect_all_vars(replacement));
    first_free_name(base, &all)
}

/// Renames the free occurrences of `from` in `t` to the variable `to`.
fn rename_var(t: &Term, from: &String, to: &String) -> (r: Term)
    ensures
        r@ == rename(t@, from@, to@),
    decreases t,
{
    match t {
        Term::Var(x) => {
            if *x == *from {
                Term::Var(to.clone())
            } else {
                Term::Var(x.clone())
            }
        },
        Term::Abs(p, b) => {
            if *p == *from {
                Term::Abs(p.clone(), Box::new(crate::term::copy_term(b)))
            } else {
                Term::Abs(p.clone(), Box::new(rename_var(b, from, to)))
            }
        },
        Term::App(l, r) => Term::App(Box::new(rename_var(l, from, to)), Box::new(rename_var(r, from, to))),
        Term::Int(n) => Term::Int(*n),
        Term::Bool(v) => Term::Bool(*v),
        Term::If(c, a, e) => Term::If(
            Box::new(rename_var(c, from, to)),
            Box::new(rename_var(a, from, to)),
            Box::new(rename_var(e, from, to)),
        ),
        Term::PrimOp(op, l, r) => Term::PrimOp(
            *op,
            Box::new(rename_var(l, from, to)),
            Box::new(rename_var(r, from, to)),
        ),
    }
}

/// Replaces every free occurrence of `var` in `term` with `replacement`, renaming binders
/// that would capture a free variable of `replacement`.
pub fn substitute(term: &Term, var: &str, replacement: &Term) -> (r: Term)
    ensures
        r@ == subst(term@, var@, replacement@),
{
    substitute_name(term, &var.to_string(), replacement)
}

fn substitute_name(term: &Term, var: &String, replacement: &Term) -> (r: Term)
    ensures
        r@ == subst(term@, var@, replacement@),
    decreases size(term@),
{
    match term {
        Term::Var(x) => {
            if *x == *var {
                crate::term::copy_term(replacement)
            } else {
                Term::Var(x.clone())
            }
        },
        Term::Abs(param, body) => {
            if *param == *var {
                Term::Abs(param.clone(), Box::new(crate::term::copy_term(body)))
            } else if contains_name(&free_variables(replacement), param) {
                let fresh_var = fresh_name(param, term, replacement);
                let new_body = rename_var(body, param, &fresh_var);
                proof {
                    lemma_rename_size(body@, param@, fresh_var@);
                }
                Term::Abs(fresh_var, Box::new(substitute_name(&new_body, var, replacement)))
            } else {
                Term::Abs(param.clone(), Box::new(substitute_name(body, var, replacement)))
            }
        },
        Term::App(t1, t2) => Term::App(
            Box::new(substitute_name(t1, var, replacement)),
            Box::new(substitute_name(t2, var, replacement)),
        ),
        Term::Int(n) => Term::Int(*n),
        Term::Bool(v) => Term::Bool(*v),
        Term::If(cond, t1, t2) => Term::If(
            Box::new(substitute_name(cond, var, replacement)),
            Box::new(substitute_name(t1, var, replacement)),
            Box::new(substitute_name(t2, var, replacement)),
        ),
        Term::PrimOp(op, t1, t2) => Term::PrimOp(
            *op,
            Box::new(substitute_name(t1, var, replacement)),
            Box::new(substitute_name(t2, var, replacement)),
        ),
    }
}

pub proof fn lemma_all_vars_finite(t: STerm)
    ensures
        all_vars(t).finite(),
    decreases t,
{
    match t {
        STerm::Abs(_, b) => {
            lemma_all_vars_finite(*b);
        },
        STerm::App(l, r) => {
            lemma_all_vars_finite(*l);
            lemma_all_vars_finite(*r);
        },
        STerm::If(c, a, e) => {
            lemma_all_vars_finite(*c);
            lemma_all_vars_finite(*a);
            lemma_all_vars_finite(*e);
        },
        STerm::PrimOp(_, l, r) => {
            lemma_all_vars_finite(*l);
            lemma_all_vars_finite(*r);
        },
        _ => {},
    }
}

/// The name chosen for a renamed binder occurs, free or bound, in neither the term nor the
/// replacement.
pub proof fn lemma_fresh_name_avoids(base: Seq<char>, t: STerm, r: STerm)
    ensures
        !all_vars(t).contains(fresh_name_for(base, all_vars(t).union(all_vars(r)))),
        !all_vars(r).contains(fresh_name_for(base, all_vars(t).union(all_vars(r)))),
{
    lemma_all_vars_finite(t);
    lemma_all_vars_finite(r);
    lemma_fresh_name_for(base, all_vars(t).union(all_vars(r)));
}

/// Substituting `r` for `x` in `t` never renames a binder to `x` itself.
pub open spec fn renaming_spares(t: STerm, x: Seq<char>, r: STerm) -> bool
    decreases size(t) via renaming_spares_decreases
{
    match t {
        STerm::Abs(p, b) => if p == x {
            true
        } else if free_vars(r).contains(p) {
            let f = fresh_name_for(p, all_vars(t).union(all_vars(r)));
            f != x && renaming_spares(rename(*b, p, f), x, r)
        } else {
            renaming_spares(*b, x, r)
        },
        STerm::App(l, a) => renaming_spares(*l, x, r) && renaming_spares(*a, x, r),
        STerm::If(c, a, e) => renaming_spares(*c, x, r) && renaming_spares(*a, x, r)
            && renaming_spares(*e, x, r),
        STerm::PrimOp(_, l, a) => renaming_spares(*l, x, r) && renaming_spares(*a, x, r),
        _ => true,
    }
}

#[via_fn]
proof fn renaming_spares_decreases(t: STerm, x: Seq<char>, r: STerm) {
    if let STerm::Abs(p, b) = t {
        let f = fresh_name_for(p, all_vars(t).union(all_vars(r)));
        lemma_rename_size(*b, p, f);
    }
}

pub proof fn lemma_free_vars_in_all_vars(t: STerm)
    ensures
        free_vars(t).subset_of(all_vars(t)),
    decreases t,
{
    match t {
        STerm::Abs(_, b) => {
            lemma_free_vars_in_all_vars(*b);
        },
        STerm::App(l, r) => {
            lemma_free_vars_in_all_vars(*l);
            lemma_free_vars_in_all_vars(*r);
        },
        STerm::If(c, a, e) => {
            lemma_free_vars_in_all_vars(*c);
            lemma_free_vars_in_all_vars(*a);
            lemma_free_vars_in_all_vars(*e);
        },
        STerm::PrimOp(_, l, r) => {
            lemma_free_vars_in_all_vars(*l);
            lemma_free_vars_in_all_vars(*r);
        },
        _ => {},
    }
}

pub proof fn lemma_rename_free_vars(t: STerm, from: Seq<char>, to: Seq<char>)
    requires
        !all_vars(t).contains(to),
    ensures
        free_vars(rename(t, from, to)) == if free_vars(t).contains(from) {
            free_vars(t).remove(from).insert(to)
        } else {
            free_vars(t)
        },
    decreases t,
{
    match t {
        STerm::Var(y) => {
            assert(free_vars(rename(t, from, to)) =~= if free_vars(t).contains(from) {
                free_vars(t).remove(from).insert(to)
            } else {
                free_vars(t)
            });
        },
        STerm::Abs(p, b) => {
            if p != from {
                lemma_rename_free_vars(*b, from, to);
            }
            assert(free_vars(rename(t, from, to)) =~= if free_vars(t).contains(from) {
                free_vars(t).remove(from).insert(to)
            } else {
                free_vars(t)
            });
        },
        STerm::App(l, r) => {
            lemma_rename_free_vars(*l, from, to);
            lemma_rename_free_vars(*r, from, to);
            assert(free_vars(rename(t, from, to)) =~= if free_vars(t).contains(from) {
                free_vars(t).remove(from).insert(to)
            } else {
                free_vars(t)
            });
        },
        STerm::If(c, a, e) => {
            lemma_rename_free_vars(*c, from, to);
            lemma_rename_free_vars(*a, from, to);
            lemma_rename_free_vars(*e, from, to);
            assert(free_vars(rename(t, from, to)) =~= if free_vars(t).contains(from) {
                free_vars(t).remove(from).insert(to)
            } else {
                free_vars(t)
            });
        },
        STerm::PrimOp(_, l, r) => {
            lemma_rename_free_vars(*l, from, to);
            lemma_rename_free_vars(*r, from, to);
            assert(free_vars(rename(t, from, to)) =~= if free_vars(t).contains(from) {
                free_vars(t).remove(from).insert(to)
            } else {
                free_vars(t)
            });
        },
        _ => {
            assert(free_vars(rename(t, from, to)) =~= free_vars(t));
        },
    }
}

/// The free variables after substitution: substituting `r` for a free `x` removes `x` and
/// adds the free variables of `r`, so none of them is captured; otherwise they are unchanged.
/// This holds whenever no binder is renamed to `x` itself.
pub proof fn lemma_subst_free_vars(t: STerm, x: Seq<char>, r: STerm)
    requires
        renaming_spares(t, x, r),
    ensures
        free_vars(subst(t, x, r)) == if free_vars(t).contains(x) {
            free_vars(t).remove(x).union(free_vars(r))
        } else {
            free_vars(t)
        },
    decreases size(t),
{
    let expected = if free_vars(t).contains(x) {
        free_vars(t).remove(x).union(free_vars(r))
    } else {
        free_vars(t)
    };
    match t {
        STerm::Var(y) => {
            assert(free_vars(subst(t, x, r)) =~= expected);
        },
        STerm::Abs(p, b) => {
            if p == x {
                assert(free_vars(subst(t, x, r)) =~= expected);
            } else if free_vars(r).contains(p) {
                let avoid = all_vars(t).union(all_vars(r));
                let f = fresh_name_for(p, avoid);
                lemma_all_vars_finite(t);
                lemma_all_vars_finite(r);
                lemma_fresh_name_for(p, avoid);
                lemma_free_vars_in_all_vars(*b);
                lemma_free_vars_in_all_vars(r);
                let b2 = rename(*b, p, f);
                lemma_rename_free_vars(*b, p, f);
                lemma_rename_size(*b, p, f);
                lemma_subst_free_vars(b2, x, r);
                assert(free_vars(subst(t, x, r)) =~= expected);
            } else {
                lemma_subst_free_vars(*b, x, r);
                assert(free_vars(subst(t, x, r)) =~= expected);
            }
        },
        STerm::App(l, a) => {
            lemma_subst_free_vars(*l, x, r);
            lemma_subst_free_vars(*a, x, r);
            assert(free_vars(subst(t, x, r)) =~= expected);
        },
        STerm::If(c, a, e) => {
            lemma_subst_free_vars(*c, x, r);
            lemma_subst_free_vars(*a, x, r);
            lemma_subst_free_vars(*e, x, r);
            assert(free_vars(subst(t, x, r)) =~= expected);
        },
        STerm::PrimOp(_, l, a) => {
            lemma_subst_free_vars(*l, x, r);
            lemma_subst_free_vars(*a, x, r);
            assert(free_vars(subst(t, x, r)) =~= expected);
        },
        _ => {
            assert(free_vars(subst(t, x, r)) =~= expected);
        },
    }
}

} // verus!

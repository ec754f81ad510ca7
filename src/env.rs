use vstd::prelude::*;
use vstd::string::*;
use crate::term::{copy_term, STerm, Term};

verus! {

/// The map that a list of bindings stands for: a later binding of a name hides an earlier one.
pub open spec fn bindings_map(s: Seq<(String, Term)>) -> Map<Seq<char>, STerm>
    decreases s.len(),
{
    if s.len() == 0 {
        Map::empty()
    } else {
        let last = s[s.len() - 1];
        bindings_map(s.drop_last()).insert(last.0@, last.1@)
    }
}

/// A set of bindings from names to terms.
pub struct Env {
    bindings: Vec<(String, Term)>,
}

impl View for Env {
    type V = Map<Seq<char>, STerm>;

    closed spec fn view(&self) -> Map<Seq<char>, STerm> {
        bindings_map(self.bindings@)
    }
}

impl Env {
    /// An environment with no binding.
    pub fn new() -> (r: Env)
        ensures
            r@ == Map::<Seq<char>, STerm>::empty(),
    {
        let r = Env { bindings: Vec::new() };
        proof {
            assert(bindings_map(r.bindings@) == Map::<Seq<char>, STerm>::empty());
        }
        r
    }

    /// Binds `name` to `term`, replacing any earlier binding of `name`.
    pub fn insert(&mut self, name: String, term: Term)
        ensures
            final(self)@ == old(self)@.insert(name@, term@),
    {
        self.bindings.push((name, term));
        proof {
            assert(self.bindings@.drop_last() =~= old(self).bindings@);
        }
    }

    /// A copy of the term bound to `name`, if there is one.
    pub fn get(&self, name: &String) -> (r: Option<Term>)
        ensures
            match r {
                Some(t) => self@.contains_key(name@) && t@ == self@[name@],
                None => !self@.contains_key(name@),
            },
    {
        let mut found: Option<usize> = None;
        let mut idx: usize = 0;
        while idx < self.bindings.len()
            invariant
                idx <= self.bindings@.len(),
                match found {
                    Some(j) => j < idx && bindings_map(self.bindings@.subrange(0, idx as int)).contains_key(name@)
                        && bindings_map(self.bindings@.subrange(0, idx as int))[name@]
                        == self.bindings@[j as int].1@,
                    None => !bindings_map(self.bindings@.subrange(0, idx as int)).contains_key(name@),
                },
            decreases self.bindings@.len() - idx,
        {
            proof {
                assert(self.bindings@.subrange(0, idx + 1).drop_last() =~= self.bindings@.subrange(
                    0,
                    idx as int,
                ));
            }
            if self.bindings[idx].0 == *name {
                found = Some(idx);
            }
            idx += 1;
        }
        proof {
            assert(self.bindings@.subrange(0, idx as int) =~= self.bindings@);
        }
        match found {
            Some(j) => Some(copy_term(&self.bindings[j].1)),
            None => None,
        }
    }

    /// A copy of this environment without any binding of `name`.
    pub fn without(&self, name: &String) -> (r: Env)
        ensures
            r@ == self@.remove(name@),
    {
        let mut kept: Vec<(String, Term)> = Vec::new();
        let mut idx: usize = 0;
        while idx < self.bindings.len()
            invariant
                idx <= self.bindings@.len(),
                bindings_map(kept@) == bindings_map(self.bindings@.subrange(0, idx as int)).remove(
                    name@,
                ),
            decreases self.bindings@.len() - idx,
        {
            proof {
                assert(self.bindings@.subrange(0, idx + 1).drop_last() =~= self.bindings@.subrange(
                    0,
                    idx as int,
                ));
            }
            let ghost before = kept@;
            if self.bindings[idx].0 != *name {
                let entry = (self.bindings[idx].0.clone(), copy_term(&self.bindings[idx].1));
                kept.push(entry);
                proof {
                    assert(kept@.drop_last() =~= before);
                }
            }
            proof {
                assert(bindings_map(kept@) =~= bindings_map(self.bindings@.subrange(0, idx + 1)).remove(
                    name@,
                ));
            }
            idx += 1;
        }
        proof {
            assert(self.bindings@.subrange(0, idx as int) =~= self.bindings@);
        }
        Env { bindings: kept }
    }
}

/// Creates a new empty environment.
pub fn empty_env() -> (r: Env)
    ensures
        r@ == Map::<Seq<char>, STerm>::empty(),
{
    Env::new()
}

} // verus!

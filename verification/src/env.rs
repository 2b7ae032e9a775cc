//! Environment operations: lookup, definition (insert-or-overwrite) and
//! snapshotting, each specified against the environment's `Map` model.

use vstd::prelude::*;

use crate::text::str_eq;
use crate::types::{bindings_view, duplicate_bindings, Binding, Env, Expr, SpecExpr};

verus! {

impl Env {
    /// Looks a name up; `Some` exactly when the model contains the name,
    /// and then the returned value is the model's value for it.
    #[verifier::loop_isolation(false)]
    pub fn lookup<'a>(&'a self, name: &str) -> (r: Option<&'a Expr>)
        ensures
            match r {
                Some(v) => self@.contains_key(name@) && v@ == self@[name@],
                None => !self@.contains_key(name@),
            },
    {
        proof {
            assert(self.bindings@.take(self.bindings@.len() as int) =~= self.bindings@);
        }
        let mut i: usize = self.bindings.len();
        while i > 0
            invariant
                i <= self.bindings.len(),
                self@.contains_key(name@) == bindings_view(
                    self.bindings@.take(i as int),
                ).contains_key(name@),
                self@.contains_key(name@) ==> self@[name@] == bindings_view(
                    self.bindings@.take(i as int),
                )[name@],
            decreases i,
        {
            i = i - 1;
            proof {
                assert(self.bindings@.take(i + 1).drop_last() =~= self.bindings@.take(i as int));
                assert(self.bindings@.take(i + 1).last() == self.bindings@[i as int]);
            }
            if str_eq(self.bindings[i].name.as_str(), name) {
                return Some(&self.bindings[i].val);
            }
        }
        proof {
            assert(self.bindings@.take(0) =~= Seq::<Binding>::empty());
        }
        None
    }

    /// Whether a name is bound, as in the model.
    pub fn contains_key(&self, name: &str) -> (r: bool)
        ensures
            r == self@.contains_key(name@),
    {
        self.lookup(name).is_some()
    }

    /// Binds a name to a value, inserting or overwriting: the model gains
    /// exactly that one entry.
    pub fn define(&mut self, name: String, val: Expr)
        ensures
            final(self)@ == old(self)@.insert(name@, val@),
    {
        let ghost prev = self.bindings@;
        let ghost key = name@;
        let ghost value = val@;
        self.bindings.push(Binding { name, val });
        proof {
            assert(self.bindings@.drop_last() =~= prev);
            assert(self.bindings@.last().name@ == key);
            assert(self.bindings@.last().val@ == value);
        }
    }

    /// Binds a name to a value as [`Env::define`] does, handing back the
    /// value the name held before, if any.
    pub fn insert(&mut self, name: String, val: Expr) -> (r: Option<Expr>)
        ensures
            final(self)@ == old(self)@.insert(name@, val@),
            match r {
                Some(v) => old(self)@.contains_key(name@) && v@ == old(self)@[name@],
                None => !old(self)@.contains_key(name@),
            },
    {
        let prev = match self.lookup(name.as_str()) {
            Some(v) => Some(v.duplicate()),
            None => None,
        };
        self.define(name, val);
        prev
    }

    /// A full independent copy with the same model.
    pub fn snapshot(&self) -> (r: Env)
        ensures
            r@ == self@,
    {
        Env { bindings: duplicate_bindings(&self.bindings) }
    }
}

/// The starting environment: no bindings at all.
pub fn default_env() -> (r: Env)
    ensures
        r@ == Map::<Seq<char>, SpecExpr>::empty(),
{
    Env { bindings: Vec::new() }
}

} // verus!

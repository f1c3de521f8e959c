pub use crate::value::Env;
use crate::value::{Value, copy_env, lemma_env_view, lemma_values_view, lemma_values_view_push};
use vstd::prelude::*;

verus! {

impl Env {
    pub fn new() -> (r: Self)
        ensures
            r@ == Seq::<crate::value::ValueV>::empty(),
    {
        let r = Env { bindings: Vec::new() };
        proof {
            lemma_env_view(r);
            lemma_values_view(r.bindings@);
        }
        r
    }

    /// The value of de Bruijn variable `index`: the `index`-th binding counted
    /// from the innermost one.
    pub fn lookup(&self, index: usize) -> (r: &Value)
        requires
            index < self@.len(),
        ensures
            r@ == self@[self@.len() - 1 - index],
    {
        proof {
            lemma_env_view(*self);
            lemma_values_view(self.bindings@);
        }
        let len = self.bindings.len();
        &self.bindings[len - 1 - index]
    }

    /// This environment with one more binding, innermost.
    pub fn extend(&self, value: Value) -> (r: Self)
        ensures
            r@ == self@.push(value@),
    {
        let mut env = copy_env(self);
        proof {
            lemma_env_view(env);
            lemma_values_view_push(env.bindings@, value);
        }
        env.bindings.push(value);
        proof {
            lemma_env_view(env);
        }
        env
    }

    pub fn len(&self) -> (r: usize)
        ensures
            r == self@.len(),
    {
        proof {
            lemma_env_view(*self);
            lemma_values_view(self.bindings@);
        }
        self.bindings.len()
    }

    pub fn is_empty(&self) -> (r: bool)
        ensures
            r == (self@.len() == 0),
    {
        proof {
            lemma_env_view(*self);
            lemma_values_view(self.bindings@);
        }
        self.bindings.len() == 0
    }
}

impl Default for Env {
    fn default() -> (r: Self)
        ensures
            r@ == Seq::<crate::value::ValueV>::empty(),
    {
        Env::new()
    }
}

/// Extending an environment (or a context: both are sequences of value models,
/// innermost last) binds de Bruijn index `0` to the new value and shifts every
/// other index up by one.
pub proof fn lemma_lookup_after_extend(env: Seq<crate::value::ValueV>, v: crate::value::ValueV, i: int)
    requires
        0 <= i <= env.len(),
    ensures
        env.push(v)[env.push(v).len() - 1 - i] == (if i == 0 {
            v
        } else {
            env[env.len() - 1 - (i - 1)]
        }),
{
}

} // verus!

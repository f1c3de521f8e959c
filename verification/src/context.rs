use crate::value::{Value, ValueV, copy_value, lemma_values_view, lemma_values_view_push, values_view};
use vstd::prelude::*;

verus! {

/// A typing context: the types of the de Bruijn variables in scope, the
/// innermost binder last.
pub struct Context {
    types: Vec<Value>,
}

impl View for Context {
    type V = Seq<ValueV>;

    closed spec fn view(&self) -> Seq<ValueV> {
        values_view(self.types@)
    }
}

impl Context {
    pub fn new() -> (r: Self)
        ensures
            r@ == Seq::<ValueV>::empty(),
    {
        let r = Context { types: Vec::new() };
        proof {
            lemma_values_view(r.types@);
        }
        r
    }

    /// The type of de Bruijn variable `index`.
    pub fn lookup(&self, index: usize) -> (r: &Value)
        requires
            index < self@.len(),
        ensures
            r@ == self@[self@.len() - 1 - index],
    {
        proof {
            lemma_values_view(self.types@);
        }
        let len = self.types.len();
        &self.types[len - 1 - index]
    }

    /// This context with one more variable, innermost.
    pub fn extend(&self, ty: Value) -> (r: Self)
        ensures
            r@ == self@.push(ty@),
    {
        let mut types: Vec<Value> = Vec::new();
        let n = self.types.len();
        let mut i: usize = 0;
        proof {
            assert(types@ =~= self.types@.subrange(0, 0));
        }
        while i < n
            invariant
                n == self.types@.len(),
                i <= n,
                values_view(types@) == values_view(self.types@.subrange(0, i as int)),
            decreases n - i,
        {
            let c = copy_value(&self.types[i]);
            proof {
                lemma_values_view_push(types@, c);
                lemma_values_view_push(self.types@.subrange(0, i as int), self.types@[i as int]);
                assert(self.types@.subrange(0, i as int).push(self.types@[i as int])
                    =~= self.types@.subrange(0, i + 1));
            }
            types.push(c);
            i = i + 1;
        }
        proof {
            assert(self.types@.subrange(0, n as int) =~= self.types@);
            lemma_values_view_push(types@, ty);
        }
        types.push(ty);
        Context { types }
    }

    pub fn len(&self) -> (r: usize)
        ensures
            r == self@.len(),
    {
        proof {
            lemma_values_view(self.types@);
        }
        self.types.len()
    }

    pub fn is_empty(&self) -> (r: bool)
        ensures
            r == (self@.len() == 0),
    {
        proof {
            lemma_values_view(self.types@);
        }
        self.types.len() == 0
    }
}

impl Default for Context {
    fn default() -> (r: Self)
        ensures
            r@ == Seq::<ValueV>::empty(),
    {
        Context::new()
    }
}

} // verus!

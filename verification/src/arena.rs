use crate::level::LevelVar;
use crate::term::{Name, Syntax, TermData, TermId, arena_wf, children_below, keeps_trees, term_id, tree};
use vstd::prelude::*;

verus! {

broadcast use crate::term::group_term_id, crate::term::lemma_tree_push;

/// Runs `f` with a fresh, empty arena and returns what `f` returns.
pub fn with_scope<F, R>(f: F) -> (r: R) where F: FnOnce(Arena) -> R
    requires
        forall|a: Arena| a@ == Seq::<TermData>::empty() ==> call_requires(f, (a,)),
    ensures
        exists|a: Arena| a@ == Seq::<TermData>::empty() && call_ensures(f, (a,), r),
{
    let a = Arena::new();
    f(a)
}

/// Append-only storage of terms. A term is stored after the terms it refers to,
/// so a handle names the same term for the whole life of the arena.
pub struct Arena {
    terms: Vec<TermData>,
}

impl View for Arena {
    type V = Seq<TermData>;

    closed spec fn view(&self) -> Seq<TermData> {
        self.terms@
    }
}

/// The arena after storing `d`: `d` is appended.
pub open spec fn alloc_s(a: Seq<TermData>, d: TermData) -> (Seq<TermData>, TermId) {
    (a.push(d), term_id(a.len() as usize))
}

impl Arena {
    #[verifier::type_invariant]
    spec fn inv(self) -> bool {
        arena_wf(self.terms@)
    }

    fn new() -> (r: Self)
        ensures
            r@ == Seq::<TermData>::empty(),
    {
        Arena { terms: Vec::new() }
    }

    /// The number of stored terms.
    pub fn len(&self) -> (r: usize)
        ensures
            r == self@.len(),
            arena_wf(self@),
    {
        proof {
            use_type_invariant(self);
        }
        self.terms.len()
    }

    fn store(&mut self, data: TermData) -> (r: TermId)
        requires
            children_below(data, old(self)@.len() as int),
        ensures
            (final(self)@, r) == alloc_s(old(self)@, data),
            r@ == old(self)@.len(),
            keeps_trees(old(self)@, final(self)@),
    {
        proof {
            use_type_invariant(&*self);
            let a = self@;
            assert forall|id: TermId| id@ < a.len() implies #[trigger] tree(a.push(data), id) == tree(a, id) by {
                crate::term::lemma_tree_push(a, data, id);
            }
        }
        let index = self.terms.len();
        let mut terms = Vec::new();
        std::mem::swap(&mut terms, &mut self.terms);
        terms.push(data);
        self.terms = terms;
        TermId::new(index)
    }

    /// The node stored at `id`.
    pub fn get(&self, id: TermId) -> (r: TermData)
        requires
            id@ < self@.len(),
        ensures
            r == self@[id@ as int],
            arena_wf(self@),
    {
        proof {
            use_type_invariant(self);
        }
        self.terms[id.index()].copy()
    }

    pub fn var(&mut self, index: usize) -> (r: TermId)
        ensures
            (final(self)@, r) == alloc_s(old(self)@, TermData::Var(index)),
            r@ == old(self)@.len(),
            keeps_trees(old(self)@, final(self)@),
            tree(final(self)@, r) == Syntax::Var(index),
    {
        self.store(TermData::Var(index))
    }

    pub fn typ(&mut self, level: LevelVar) -> (r: TermId)
        ensures
            (final(self)@, r) == alloc_s(old(self)@, TermData::Type(level)),
            r@ == old(self)@.len(),
            keeps_trees(old(self)@, final(self)@),
            tree(final(self)@, r) == Syntax::Type(level),
    {
        self.store(TermData::Type(level))
    }

    pub fn pi(&mut self, dom: TermId, cod: TermId) -> (r: TermId)
        requires
            dom@ < old(self)@.len(),
            cod@ < old(self)@.len(),
        ensures
            (final(self)@, r) == alloc_s(old(self)@, TermData::Pi(dom, cod)),
            r@ == old(self)@.len(),
            keeps_trees(old(self)@, final(self)@),
            tree(final(self)@, r) == Syntax::Pi(Box::new(tree(old(self)@, dom)), Box::new(tree(old(self)@, cod))),
    {
        let r = self.store(TermData::Pi(dom, cod));
        proof {
            assert(tree(self@, dom) == tree(old(self)@, dom));
            assert(tree(self@, cod) == tree(old(self)@, cod));
        }
        r
    }

    pub fn lam(&mut self, param_ty: TermId, body: TermId) -> (r: TermId)
        requires
            param_ty@ < old(self)@.len(),
            body@ < old(self)@.len(),
        ensures
            (final(self)@, r) == alloc_s(old(self)@, TermData::Lam(param_ty, body)),
            r@ == old(self)@.len(),
            keeps_trees(old(self)@, final(self)@),
            tree(final(self)@, r) == Syntax::Lam(Box::new(tree(old(self)@, param_ty)), Box::new(tree(old(self)@, body))),
    {
        let r = self.store(TermData::Lam(param_ty, body));
        proof {
            assert(tree(self@, param_ty) == tree(old(self)@, param_ty));
            assert(tree(self@, body) == tree(old(self)@, body));
        }
        r
    }

    pub fn app(&mut self, fun: TermId, arg: TermId) -> (r: TermId)
        requires
            fun@ < old(self)@.len(),
            arg@ < old(self)@.len(),
        ensures
            (final(self)@, r) == alloc_s(old(self)@, TermData::App(fun, arg)),
            r@ == old(self)@.len(),
            keeps_trees(old(self)@, final(self)@),
            tree(final(self)@, r) == Syntax::App(Box::new(tree(old(self)@, fun)), Box::new(tree(old(self)@, arg))),
    {
        let r = self.store(TermData::App(fun, arg));
        proof {
            assert(tree(self@, fun) == tree(old(self)@, fun));
            assert(tree(self@, arg) == tree(old(self)@, arg));
        }
        r
    }

    pub fn sigma(&mut self, fst_ty: TermId, snd_ty: TermId) -> (r: TermId)
        requires
            fst_ty@ < old(self)@.len(),
            snd_ty@ < old(self)@.len(),
        ensures
            (final(self)@, r) == alloc_s(old(self)@, TermData::Sigma(fst_ty, snd_ty)),
            r@ == old(self)@.len(),
            keeps_trees(old(self)@, final(self)@),
            tree(final(self)@, r) == Syntax::Sigma(Box::new(tree(old(self)@, fst_ty)), Box::new(tree(old(self)@, snd_ty))),
    {
        let r = self.store(TermData::Sigma(fst_ty, snd_ty));
        proof {
            assert(tree(self@, fst_ty) == tree(old(self)@, fst_ty));
            assert(tree(self@, snd_ty) == tree(old(self)@, snd_ty));
        }
        r
    }

    pub fn pair(&mut self, fst: TermId, snd: TermId) -> (r: TermId)
        requires
            fst@ < old(self)@.len(),
            snd@ < old(self)@.len(),
        ensures
            (final(self)@, r) == alloc_s(old(self)@, TermData::Pair(fst, snd)),
            r@ == old(self)@.len(),
            keeps_trees(old(self)@, final(self)@),
            tree(final(self)@, r) == Syntax::Pair(Box::new(tree(old(self)@, fst)), Box::new(tree(old(self)@, snd))),
    {
        let r = self.store(TermData::Pair(fst, snd));
        proof {
            assert(tree(self@, fst) == tree(old(self)@, fst));
            assert(tree(self@, snd) == tree(old(self)@, snd));
        }
        r
    }

    pub fn fst(&mut self, pair: TermId) -> (r: TermId)
        requires
            pair@ < old(self)@.len(),
        ensures
            (final(self)@, r) == alloc_s(old(self)@, TermData::Fst(pair)),
            r@ == old(self)@.len(),
            keeps_trees(old(self)@, final(self)@),
            tree(final(self)@, r) == Syntax::Fst(Box::new(tree(old(self)@, pair))),
    {
        let r = self.store(TermData::Fst(pair));
        proof {
            assert(tree(self@, pair) == tree(old(self)@, pair));
        }
        r
    }

    pub fn snd(&mut self, pair: TermId) -> (r: TermId)
        requires
            pair@ < old(self)@.len(),
        ensures
            (final(self)@, r) == alloc_s(old(self)@, TermData::Snd(pair)),
            r@ == old(self)@.len(),
            keeps_trees(old(self)@, final(self)@),
            tree(final(self)@, r) == Syntax::Snd(Box::new(tree(old(self)@, pair))),
    {
        let r = self.store(TermData::Snd(pair));
        proof {
            assert(tree(self@, pair) == tree(old(self)@, pair));
        }
        r
    }

    pub fn nat_type(&mut self) -> (r: TermId)
        ensures
            (final(self)@, r) == alloc_s(old(self)@, TermData::Nat),
            r@ == old(self)@.len(),
            keeps_trees(old(self)@, final(self)@),
            tree(final(self)@, r) == Syntax::Nat,
    {
        self.store(TermData::Nat)
    }

    pub fn zero(&mut self) -> (r: TermId)
        ensures
            (final(self)@, r) == alloc_s(old(self)@, TermData::Zero),
            r@ == old(self)@.len(),
            keeps_trees(old(self)@, final(self)@),
            tree(final(self)@, r) == Syntax::Zero,
    {
        self.store(TermData::Zero)
    }

    pub fn succ(&mut self, n: TermId) -> (r: TermId)
        requires
            n@ < old(self)@.len(),
        ensures
            (final(self)@, r) == alloc_s(old(self)@, TermData::Succ(n)),
            r@ == old(self)@.len(),
            keeps_trees(old(self)@, final(self)@),
            tree(final(self)@, r) == Syntax::Succ(Box::new(tree(old(self)@, n))),
    {
        let r = self.store(TermData::Succ(n));
        proof {
            assert(tree(self@, n) == tree(old(self)@, n));
        }
        r
    }

    pub fn nat_elim(&mut self, motive: TermId, base: TermId, step: TermId, target: TermId) -> (r:
        TermId)
        requires
            motive@ < old(self)@.len(),
            base@ < old(self)@.len(),
            step@ < old(self)@.len(),
            target@ < old(self)@.len(),
        ensures
            (final(self)@, r) == alloc_s(
                old(self)@,
                TermData::NatElim { motive, base, step, target },
            ),
            r@ == old(self)@.len(),
            keeps_trees(old(self)@, final(self)@),
            tree(final(self)@, r) == Syntax::NatElim(Box::new(tree(old(self)@, motive)), Box::new(tree(old(self)@, base)), Box::new(tree(old(self)@, step)), Box::new(tree(old(self)@, target))),
    {
        let r = self.store(TermData::NatElim { motive, base, step, target });
        proof {
            assert(tree(self@, motive) == tree(old(self)@, motive));
            assert(tree(self@, base) == tree(old(self)@, base));
            assert(tree(self@, step) == tree(old(self)@, step));
            assert(tree(self@, target) == tree(old(self)@, target));
        }
        r
    }

    pub fn sigma_elim(&mut self, motive: TermId, elim: TermId, target: TermId) -> (r: TermId)
        requires
            motive@ < old(self)@.len(),
            elim@ < old(self)@.len(),
            target@ < old(self)@.len(),
        ensures
            (final(self)@, r) == alloc_s(old(self)@, TermData::SigmaElim { motive, elim, target }),
            r@ == old(self)@.len(),
            keeps_trees(old(self)@, final(self)@),
            tree(final(self)@, r) == Syntax::SigmaElim(Box::new(tree(old(self)@, motive)), Box::new(tree(old(self)@, elim)), Box::new(tree(old(self)@, target))),
    {
        let r = self.store(TermData::SigmaElim { motive, elim, target });
        proof {
            assert(tree(self@, motive) == tree(old(self)@, motive));
            assert(tree(self@, elim) == tree(old(self)@, elim));
            assert(tree(self@, target) == tree(old(self)@, target));
        }
        r
    }

    pub fn ann(&mut self, term: TermId, ty: TermId) -> (r: TermId)
        requires
            term@ < old(self)@.len(),
            ty@ < old(self)@.len(),
        ensures
            (final(self)@, r) == alloc_s(old(self)@, TermData::Ann(term, ty)),
            r@ == old(self)@.len(),
            keeps_trees(old(self)@, final(self)@),
            tree(final(self)@, r) == Syntax::Ann(Box::new(tree(old(self)@, term)), Box::new(tree(old(self)@, ty))),
    {
        let r = self.store(TermData::Ann(term, ty));
        proof {
            assert(tree(self@, term) == tree(old(self)@, term));
            assert(tree(self@, ty) == tree(old(self)@, ty));
        }
        r
    }

    pub fn konst(&mut self, name: Name) -> (r: TermId)
        ensures
            (final(self)@, r) == alloc_s(old(self)@, TermData::Const(name)),
            r@ == old(self)@.len(),
            keeps_trees(old(self)@, final(self)@),
            tree(final(self)@, r) == Syntax::Const(name.0@),
    {
        self.store(TermData::Const(name))
    }
}

} // verus!

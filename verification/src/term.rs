use crate::level::LevelVar;
use vstd::prelude::*;

verus! {

/// The name of a constant of the global signature.
#[derive(Debug, PartialEq, Eq, Hash)]
pub struct Name(pub String);

impl Clone for Name {
    fn clone(&self) -> (r: Self)
        ensures
            r == *self,
    {
        Name(self.0.clone())
    }
}

/// A handle on a term stored in an [`Arena`](crate::arena::Arena): the position of
/// the term in the arena.
#[derive(Clone, Copy, PartialEq, Eq, Hash, Debug)]
pub struct TermId {
    index: usize,
}

impl View for TermId {
    type V = usize;

    closed spec fn view(&self) -> usize {
        self.index
    }
}

/// The handle of the term at position `i`.
pub closed spec fn term_id(i: usize) -> TermId {
    TermId { index: i }
}

pub broadcast proof fn lemma_term_id_view(i: usize)
    ensures
        #[trigger] term_id(i)@ == i,
{
}

pub broadcast proof fn lemma_term_id_eq(t: TermId)
    ensures
        term_id(#[trigger] t@) == t,
{
}

pub broadcast group group_term_id {
    lemma_term_id_view,
    lemma_term_id_eq,
}

impl TermId {
    pub(crate) fn new(index: usize) -> (r: Self)
        ensures
            r == term_id(index),
    {
        TermId { index }
    }

    pub fn index(self) -> (r: usize)
        ensures
            r == self@,
    {
        self.index
    }
}

/// One node of the syntax; its sub-terms are handles into the same arena.
#[derive(Debug)]
pub enum TermData {
    Var(usize),
    Type(LevelVar),
    Pi(TermId, TermId),
    Lam(TermId, TermId),
    App(TermId, TermId),
    Sigma(TermId, TermId),
    Pair(TermId, TermId),
    Fst(TermId),
    Snd(TermId),
    Nat,
    Zero,
    Succ(TermId),
    NatElim { motive: TermId, base: TermId, step: TermId, target: TermId },
    SigmaElim { motive: TermId, elim: TermId, target: TermId },
    Ann(TermId, TermId),
    Const(Name),
}

impl TermData {
    /// A copy of the node, equal to it.
    pub(crate) fn copy(&self) -> (r: Self)
        ensures
            r == *self,
    {
        match self {
            TermData::Var(i) => TermData::Var(*i),
            TermData::Type(l) => TermData::Type(*l),
            TermData::Pi(a, b) => TermData::Pi(*a, *b),
            TermData::Lam(a, b) => TermData::Lam(*a, *b),
            TermData::App(a, b) => TermData::App(*a, *b),
            TermData::Sigma(a, b) => TermData::Sigma(*a, *b),
            TermData::Pair(a, b) => TermData::Pair(*a, *b),
            TermData::Fst(p) => TermData::Fst(*p),
            TermData::Snd(p) => TermData::Snd(*p),
            TermData::Nat => TermData::Nat,
            TermData::Zero => TermData::Zero,
            TermData::Succ(n) => TermData::Succ(*n),
            TermData::NatElim { motive, base, step, target } => TermData::NatElim {
                motive: *motive,
                base: *base,
                step: *step,
                target: *target,
            },
            TermData::SigmaElim { motive, elim, target } => TermData::SigmaElim {
                motive: *motive,
                elim: *elim,
                target: *target,
            },
            TermData::Ann(t, ty) => TermData::Ann(*t, *ty),
            TermData::Const(n) => TermData::Const(n.clone()),
        }
    }
}

impl Clone for TermData {
    fn clone(&self) -> (r: Self)
        ensures
            r == *self,
    {
        self.copy()
    }
}

/// Every sub-term handle of `d` points below position `n`.
pub open spec fn children_below(d: TermData, n: int) -> bool {
    match d {
        TermData::Var(_) | TermData::Type(_) | TermData::Nat | TermData::Zero | TermData::Const(
            _,
        ) => true,
        TermData::Pi(a, b) | TermData::Lam(a, b) | TermData::App(a, b) | TermData::Sigma(a, b)
        | TermData::Pair(a, b) | TermData::Ann(a, b) => a@ < n && b@ < n,
        TermData::Fst(p) | TermData::Snd(p) | TermData::Succ(p) => p@ < n,
        TermData::NatElim { motive, base, step, target } => motive@ < n && base@ < n && step@ < n
            && target@ < n,
        TermData::SigmaElim { motive, elim, target } => motive@ < n && elim@ < n && target@ < n,
    }
}

/// A well-formed arena: each node only refers to nodes stored before it.
pub open spec fn arena_wf(a: Seq<TermData>) -> bool {
    forall|i: int| 0 <= i < a.len() ==> #[trigger] children_below(a[i], i)
}

/// Syntax trees: the terms of an arena with sharing unfolded and names taken by
/// their characters.
pub enum Syntax {
    Var(usize),
    Type(LevelVar),
    Pi(Box<Syntax>, Box<Syntax>),
    Lam(Box<Syntax>, Box<Syntax>),
    App(Box<Syntax>, Box<Syntax>),
    Sigma(Box<Syntax>, Box<Syntax>),
    Pair(Box<Syntax>, Box<Syntax>),
    Fst(Box<Syntax>),
    Snd(Box<Syntax>),
    Nat,
    Zero,
    Succ(Box<Syntax>),
    NatElim(Box<Syntax>, Box<Syntax>, Box<Syntax>, Box<Syntax>),
    SigmaElim(Box<Syntax>, Box<Syntax>, Box<Syntax>),
    Ann(Box<Syntax>, Box<Syntax>),
    Const(Seq<char>),
}

/// The syntax tree of the term stored at `id` in arena `a` (for a well-formed
/// arena and a handle inside it).
pub open spec fn tree(a: Seq<TermData>, id: TermId) -> Syntax
    decreases id@,
{
    let n = id@;
    let child = |c: TermId|
        if c@ < n {
            Box::new(tree(a, c))
        } else {
            Box::new(Syntax::Nat)
        };
    if n >= a.len() {
        Syntax::Nat
    } else {
        match a[n as int] {
            TermData::Var(i) => Syntax::Var(i),
            TermData::Type(l) => Syntax::Type(l),
            TermData::Pi(x, y) => Syntax::Pi(child(x), child(y)),
            TermData::Lam(x, y) => Syntax::Lam(child(x), child(y)),
            TermData::App(x, y) => Syntax::App(child(x), child(y)),
            TermData::Sigma(x, y) => Syntax::Sigma(child(x), child(y)),
            TermData::Pair(x, y) => Syntax::Pair(child(x), child(y)),
            TermData::Fst(p) => Syntax::Fst(child(p)),
            TermData::Snd(p) => Syntax::Snd(child(p)),
            TermData::Nat => Syntax::Nat,
            TermData::Zero => Syntax::Zero,
            TermData::Succ(p) => Syntax::Succ(child(p)),
            TermData::NatElim { motive, base, step, target } => Syntax::NatElim(
                child(motive),
                child(base),
                child(step),
                child(target),
            ),
            TermData::SigmaElim { motive, elim, target } => Syntax::SigmaElim(
                child(motive),
                child(elim),
                child(target),
            ),
            TermData::Ann(x, y) => Syntax::Ann(child(x), child(y)),
            TermData::Const(name) => Syntax::Const(name.0@),
        }
    }
}

/// Storing a node leaves the syntax tree of every earlier term unchanged.
pub broadcast proof fn lemma_tree_push(a: Seq<TermData>, d: TermData, id: TermId)
    requires
        id@ < a.len(),
    ensures
        #[trigger] tree(a.push(d), id) == tree(a, id),
    decreases id@,
{
    let b = a.push(d);
    assert(b[id@ as int] == a[id@ as int]);
    match a[id@ as int] {
        TermData::Pi(x, y) | TermData::Lam(x, y) | TermData::App(x, y) | TermData::Sigma(x, y)
        | TermData::Pair(x, y) | TermData::Ann(x, y) => {
            if x@ < id@ {
                lemma_tree_push(a, d, x);
            }
            if y@ < id@ {
                lemma_tree_push(a, d, y);
            }
        },
        TermData::Fst(p) | TermData::Snd(p) | TermData::Succ(p) => {
            if p@ < id@ {
                lemma_tree_push(a, d, p);
            }
        },
        TermData::NatElim { motive, base, step, target } => {
            if motive@ < id@ {
                lemma_tree_push(a, d, motive);
            }
            if base@ < id@ {
                lemma_tree_push(a, d, base);
            }
            if step@ < id@ {
                lemma_tree_push(a, d, step);
            }
            if target@ < id@ {
                lemma_tree_push(a, d, target);
            }
        },
        TermData::SigmaElim { motive, elim, target } => {
            if motive@ < id@ {
                lemma_tree_push(a, d, motive);
            }
            if elim@ < id@ {
                lemma_tree_push(a, d, elim);
            }
            if target@ < id@ {
                lemma_tree_push(a, d, target);
            }
        },
        _ => {},
    }
}

/// `b` keeps every term of `a`: it is at least as long, and each term of `a` has
/// the same syntax tree in `b`.
pub open spec fn keeps_trees(a: Seq<TermData>, b: Seq<TermData>) -> bool {
    a.len() <= b.len() && forall|id: TermId| id@ < a.len() ==> #[trigger] tree(b, id) == tree(a, id)
}

} // verus!

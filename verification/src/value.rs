use crate::level::LevelVar;
use crate::term::{Name, TermId};
use vstd::prelude::*;

verus! {

/// Semantic values of normalization by evaluation. Closures (`VPi`, `VLam`,
/// `VSigma`) pair a term with the environment it is evaluated in; a `VLam`
/// also carries the value of its parameter's type.
#[derive(Debug)]
pub enum Value {
    VPi(TermId, Env),
    VLam(Box<Value>, TermId, Env),
    VSigma(TermId, Env),
    VPair(Box<Value>, Box<Value>),
    VNat,
    VZero,
    VSucc(Box<Value>),
    VType(LevelVar),
    VConst(Name, Box<Value>),
    VNeutral(Neutral),
}

/// Stuck computations: a variable or an opaque constant under eliminations.
#[derive(Debug)]
pub enum Neutral {
    NVar(usize),
    NApp(Box<Neutral>, Box<Value>),
    NFst(Box<Neutral>),
    NSnd(Box<Neutral>),
    NNatElim { motive: Box<Value>, base: Box<Value>, step: Box<Value>, target: Box<Neutral> },
    NSigmaElim { motive: Box<Value>, elim: Box<Value>, target: Box<Neutral> },
    NConst(Name),
}

/// An evaluation environment: the values of the de Bruijn variables in scope,
/// the innermost binder last.
#[derive(Debug)]
pub struct Env {
    pub(crate) bindings: Vec<Value>,
}

/// The mathematical model of a value: environments are sequences of models.
pub enum ValueV {
    VPi(TermId, Seq<ValueV>),
    VLam(Box<ValueV>, TermId, Seq<ValueV>),
    VSigma(TermId, Seq<ValueV>),
    VPair(Box<ValueV>, Box<ValueV>),
    VNat,
    VZero,
    VSucc(Box<ValueV>),
    VType(LevelVar),
    VConst(Name, Box<ValueV>),
    VNeutral(NeutralV),
}

/// The mathematical model of a neutral term.
pub enum NeutralV {
    NVar(usize),
    NApp(Box<NeutralV>, Box<ValueV>),
    NFst(Box<NeutralV>),
    NSnd(Box<NeutralV>),
    NNatElim { motive: Box<ValueV>, base: Box<ValueV>, step: Box<ValueV>, target: Box<NeutralV> },
    NSigmaElim { motive: Box<ValueV>, elim: Box<ValueV>, target: Box<NeutralV> },
    NConst(Name),
}

pub closed spec fn value_view(v: Value) -> ValueV
    decreases v,
{
    match v {
        Value::VPi(t, e) => ValueV::VPi(t, values_view(e.bindings@)),
        Value::VLam(p, t, e) => ValueV::VLam(Box::new(value_view(*p)), t, values_view(e.bindings@)),
        Value::VSigma(t, e) => ValueV::VSigma(t, values_view(e.bindings@)),
        Value::VPair(a, b) => ValueV::VPair(Box::new(value_view(*a)), Box::new(value_view(*b))),
        Value::VNat => ValueV::VNat,
        Value::VZero => ValueV::VZero,
        Value::VSucc(n) => ValueV::VSucc(Box::new(value_view(*n))),
        Value::VType(l) => ValueV::VType(l),
        Value::VConst(name, ty) => ValueV::VConst(name, Box::new(value_view(*ty))),
        Value::VNeutral(n) => ValueV::VNeutral(neutral_view(n)),
    }
}

pub closed spec fn neutral_view(n: Neutral) -> NeutralV
    decreases n,
{
    match n {
        Neutral::NVar(i) => NeutralV::NVar(i),
        Neutral::NApp(h, a) => NeutralV::NApp(Box::new(neutral_view(*h)), Box::new(value_view(*a))),
        Neutral::NFst(p) => NeutralV::NFst(Box::new(neutral_view(*p))),
        Neutral::NSnd(p) => NeutralV::NSnd(Box::new(neutral_view(*p))),
        Neutral::NNatElim { motive, base, step, target } => NeutralV::NNatElim {
            motive: Box::new(value_view(*motive)),
            base: Box::new(value_view(*base)),
            step: Box::new(value_view(*step)),
            target: Box::new(neutral_view(*target)),
        },
        Neutral::NSigmaElim { motive, elim, target } => NeutralV::NSigmaElim {
            motive: Box::new(value_view(*motive)),
            elim: Box::new(value_view(*elim)),
            target: Box::new(neutral_view(*target)),
        },
        Neutral::NConst(name) => NeutralV::NConst(name),
    }
}

pub closed spec fn values_view(s: Seq<Value>) -> Seq<ValueV>
    decreases s,
{
    if s.len() == 0 {
        Seq::empty()
    } else {
        values_view(s.subrange(0, s.len() - 1)).push(value_view(s[s.len() - 1]))
    }
}

impl View for Value {
    type V = ValueV;

    open spec fn view(&self) -> ValueV {
        value_view(*self)
    }
}

impl View for Neutral {
    type V = NeutralV;

    open spec fn view(&self) -> NeutralV {
        neutral_view(*self)
    }
}

impl View for Env {
    type V = Seq<ValueV>;

    closed spec fn view(&self) -> Seq<ValueV> {
        values_view(self.bindings@)
    }
}

/// How the model of a value is built from the models of its parts.
pub broadcast proof fn lemma_value_view(v: Value)
    ensures
        #[trigger] value_view(v) == match v {
            Value::VPi(t, e) => ValueV::VPi(t, e@),
            Value::VLam(p, t, e) => ValueV::VLam(Box::new(value_view(*p)), t, e@),
            Value::VSigma(t, e) => ValueV::VSigma(t, e@),
            Value::VPair(a, b) => ValueV::VPair(Box::new(value_view(*a)), Box::new(value_view(*b))),
            Value::VNat => ValueV::VNat,
            Value::VZero => ValueV::VZero,
            Value::VSucc(n) => ValueV::VSucc(Box::new(value_view(*n))),
            Value::VType(l) => ValueV::VType(l),
            Value::VConst(name, ty) => ValueV::VConst(name, Box::new(value_view(*ty))),
            Value::VNeutral(n) => ValueV::VNeutral(neutral_view(n)),
        },
{
}

/// How the model of a neutral term is built from the models of its parts.
pub broadcast proof fn lemma_neutral_view(n: Neutral)
    ensures
        #[trigger] neutral_view(n) == match n {
            Neutral::NVar(i) => NeutralV::NVar(i),
            Neutral::NApp(h, a) => NeutralV::NApp(
                Box::new(neutral_view(*h)),
                Box::new(value_view(*a)),
            ),
            Neutral::NFst(p) => NeutralV::NFst(Box::new(neutral_view(*p))),
            Neutral::NSnd(p) => NeutralV::NSnd(Box::new(neutral_view(*p))),
            Neutral::NNatElim { motive, base, step, target } => NeutralV::NNatElim {
                motive: Box::new(value_view(*motive)),
                base: Box::new(value_view(*base)),
                step: Box::new(value_view(*step)),
                target: Box::new(neutral_view(*target)),
            },
            Neutral::NSigmaElim { motive, elim, target } => NeutralV::NSigmaElim {
                motive: Box::new(value_view(*motive)),
                elim: Box::new(value_view(*elim)),
                target: Box::new(neutral_view(*target)),
            },
            Neutral::NConst(name) => NeutralV::NConst(name),
        },
{
}

/// The model of a list of values is the list of their models.
pub proof fn lemma_values_view(s: Seq<Value>)
    ensures
        values_view(s).len() == s.len(),
        forall|i: int| 0 <= i < s.len() ==> #[trigger] values_view(s)[i] == value_view(s[i]),
    decreases s.len(),
{
    if s.len() > 0 {
        lemma_values_view(s.subrange(0, s.len() - 1));
    }
}

pub proof fn lemma_values_view_push(s: Seq<Value>, v: Value)
    ensures
        values_view(s.push(v)) == values_view(s).push(value_view(v)),
{
    assert(s.push(v).subrange(0, s.len() as int) =~= s);
}

pub(crate) proof fn lemma_env_view(e: Env)
    ensures
        e@ == values_view(e.bindings@),
{
}

pub broadcast group group_value_view {
    lemma_value_view,
    lemma_neutral_view,
}

pub(crate) fn copy_value(v: &Value) -> (r: Value)
    ensures
        r@ == v@,
    decreases v,
{
    match v {
        Value::VPi(t, e) => Value::VPi(*t, copy_env(e)),
        Value::VLam(p, t, e) => Value::VLam(Box::new(copy_value(p)), *t, copy_env(e)),
        Value::VSigma(t, e) => Value::VSigma(*t, copy_env(e)),
        Value::VPair(a, b) => Value::VPair(Box::new(copy_value(a)), Box::new(copy_value(b))),
        Value::VNat => Value::VNat,
        Value::VZero => Value::VZero,
        Value::VSucc(n) => Value::VSucc(Box::new(copy_value(n))),
        Value::VType(l) => Value::VType(*l),
        Value::VConst(name, ty) => Value::VConst(name.clone(), Box::new(copy_value(ty))),
        Value::VNeutral(n) => Value::VNeutral(copy_neutral(n)),
    }
}

pub(crate) fn copy_neutral(n: &Neutral) -> (r: Neutral)
    ensures
        r@ == n@,
    decreases n,
{
    match n {
        Neutral::NVar(i) => Neutral::NVar(*i),
        Neutral::NApp(h, a) => Neutral::NApp(Box::new(copy_neutral(h)), Box::new(copy_value(a))),
        Neutral::NFst(p) => Neutral::NFst(Box::new(copy_neutral(p))),
        Neutral::NSnd(p) => Neutral::NSnd(Box::new(copy_neutral(p))),
        Neutral::NNatElim { motive, base, step, target } => Neutral::NNatElim {
            motive: Box::new(copy_value(motive)),
            base: Box::new(copy_value(base)),
            step: Box::new(copy_value(step)),
            target: Box::new(copy_neutral(target)),
        },
        Neutral::NSigmaElim { motive, elim, target } => Neutral::NSigmaElim {
            motive: Box::new(copy_value(motive)),
            elim: Box::new(copy_value(elim)),
            target: Box::new(copy_neutral(target)),
        },
        Neutral::NConst(name) => Neutral::NConst(name.clone()),
    }
}

pub(crate) fn copy_env(e: &Env) -> (r: Env)
    ensures
        r@ == e@,
    decreases e,
{
    let mut out: Vec<Value> = Vec::new();
    let n = e.bindings.len();
    let mut i: usize = 0;
    while i < n
        invariant
            n == e.bindings@.len(),
            i <= n,
            values_view(out@) == values_view(e.bindings@.subrange(0, i as int)),
        decreases n - i,
    {
        proof {
            assert(decreases_to!(e => e.bindings));
            assert(decreases_to!(e.bindings => e.bindings@));
            assert(decreases_to!(e.bindings@ => e.bindings@[i as int]));
        }
        let c = copy_value(&e.bindings[i]);
        proof {
            lemma_values_view_push(out@, c);
            lemma_values_view_push(e.bindings@.subrange(0, i as int), e.bindings@[i as int]);
            assert(e.bindings@.subrange(0, i as int).push(e.bindings@[i as int])
                =~= e.bindings@.subrange(0, i + 1));
        }
        out.push(c);
        i = i + 1;
    }
    proof {
        assert(e.bindings@.subrange(0, n as int) =~= e.bindings@);
    }
    Env { bindings: out }
}

impl Clone for Value {
    fn clone(&self) -> (r: Self)
        ensures
            r@ == self@,
    {
        copy_value(self)
    }
}

impl Clone for Neutral {
    fn clone(&self) -> (r: Self)
        ensures
            r@ == self@,
    {
        copy_neutral(self)
    }
}

impl Clone for Env {
    fn clone(&self) -> (r: Self)
        ensures
            r@ == self@,
    {
        copy_env(self)
    }
}

} // verus!

use crate::arena::Arena;
use crate::level::{ConstraintSet, Level, collects};
use crate::nbe::{
    NbeState, apply_s, decides_def_eq, def_eq_binder_s, def_eq_lam_s, def_eq_neutral_s, def_eq_result,
    def_eq_s, elim_nat_s, elim_sigma_s, eval_const_s, eval_result, eval_s, evaluates, fresh_var, fst_s,
    grows, neutral_of, normalize_result, normalize_s, normalizes_term, quote_binder_s,
    quote_neutral_s, quote_result, quote_s, quotes, snd_s, structurally_equal,
};
use crate::signature::{Entry, Signature};
use crate::term::{Name, TermData, TermId, arena_wf, children_below};
use crate::value::{Env, Neutral, Value, copy_env, copy_neutral, copy_value};
use vstd::prelude::*;

verus! {

broadcast use crate::value::group_value_view, crate::term::group_term_id;

/// Evaluates the term `term` in `env`.
pub fn eval(arena: &Arena, sig: &Signature, term: TermId, env: &Env) -> (r: Value)
    requires
        evaluates(arena@, sig@, term, env@),
    ensures
        r@ == eval_result(arena@, sig@, term, env@),
{
    let ghost fuel = choose|f: nat| #[trigger] eval_s(f, arena@, sig@, term, env@) is Some;
    eval_in(arena, sig, term, env, Ghost(fuel))
}

pub(crate) fn eval_in(arena: &Arena, sig: &Signature, term: TermId, env: &Env, Ghost(fuel): Ghost<nat>) -> (r:
    Value)
    requires
        eval_s(fuel, arena@, sig@, term, env@) is Some,
    ensures
        eval_s(fuel, arena@, sig@, term, env@) == Some(r@),
    decreases fuel,
{
    let ghost f = (fuel - 1) as nat;
    match arena.get(term) {
        TermData::Var(i) => copy_value(env.lookup(i)),
        TermData::Type(l) => Value::VType(l),
        TermData::Pi(_, _) => Value::VPi(term, copy_env(env)),
        TermData::Lam(t, b) => {
            let vt = eval_in(arena, sig, t, env, Ghost(f));
            Value::VLam(Box::new(vt), b, copy_env(env))
        },
        TermData::App(x, y) => {
            let vf = eval_in(arena, sig, x, env, Ghost(f));
            let vx = eval_in(arena, sig, y, env, Ghost(f));
            apply(arena, sig, vf, vx, Ghost(f))
        },
        TermData::Sigma(_, _) => Value::VSigma(term, copy_env(env)),
        TermData::Pair(x, y) => {
            let vx = eval_in(arena, sig, x, env, Ghost(f));
            let vy = eval_in(arena, sig, y, env, Ghost(f));
            Value::VPair(Box::new(vx), Box::new(vy))
        },
        TermData::Fst(p) => elim_fst(eval_in(arena, sig, p, env, Ghost(f))),
        TermData::Snd(p) => elim_snd(eval_in(arena, sig, p, env, Ghost(f))),
        TermData::Nat => Value::VNat,
        TermData::Zero => Value::VZero,
        TermData::Succ(n) => Value::VSucc(Box::new(eval_in(arena, sig, n, env, Ghost(f)))),
        TermData::NatElim { motive, base, step, target } => {
            let vt = eval_in(arena, sig, target, env, Ghost(f));
            elim_nat(arena, sig, env, motive, base, step, vt, Ghost(f))
        },
        TermData::SigmaElim { motive, elim, target } => {
            let vt = eval_in(arena, sig, target, env, Ghost(f));
            elim_sigma(arena, sig, env, motive, elim, vt, Ghost(f))
        },
        TermData::Ann(t, _) => eval_in(arena, sig, t, env, Ghost(f)),
        TermData::Const(name) => eval_const(arena, sig, &name, env, Ghost(f)),
    }
}

fn eval_const(arena: &Arena, sig: &Signature, name: &Name, env: &Env, Ghost(fuel): Ghost<nat>) -> (r:
    Value)
    requires
        eval_const_s(fuel, arena@, sig@, *name, env@) is Some,
    ensures
        eval_const_s(fuel, arena@, sig@, *name, env@) == Some(r@),
    decreases fuel,
{
    let ghost f = (fuel - 1) as nat;
    match sig.get(name) {
        Some(Entry::Def { body, .. }) => eval_in(arena, sig, *body, env, Ghost(f)),
        Some(Entry::Axiom { ty }) => {
            let vty = eval_in(arena, sig, *ty, env, Ghost(f));
            Value::VConst(name.clone(), Box::new(vty))
        },
        None => Value::VNeutral(Neutral::NConst(name.clone())),
    }
}

fn apply(arena: &Arena, sig: &Signature, fun: Value, arg: Value, Ghost(fuel): Ghost<nat>) -> (r:
    Value)
    requires
        apply_s(fuel, arena@, sig@, fun@, arg@) is Some,
    ensures
        apply_s(fuel, arena@, sig@, fun@, arg@) == Some(r@),
    decreases fuel,
{
    let ghost f = (fuel - 1) as nat;
    match fun {
        Value::VLam(_, body, env) => eval_in(arena, sig, body, &env.extend(arg), Ghost(f)),
        Value::VNeutral(n) => Value::VNeutral(Neutral::NApp(Box::new(n), Box::new(arg))),
        Value::VConst(name, _) => Value::VNeutral(
            Neutral::NApp(Box::new(Neutral::NConst(name)), Box::new(arg)),
        ),
        other => Value::VNeutral(Neutral::NApp(Box::new(neutral_from_value(other)), Box::new(arg))),
    }
}

fn neutral_from_value(v: Value) -> (r: Neutral)
    ensures
        r@ == neutral_of(v@),
{
    match v {
        Value::VNeutral(n) => n,
        Value::VConst(name, _) => Neutral::NConst(name),
        _ => Neutral::NVar(0),
    }
}

fn elim_fst(pair: Value) -> (r: Value)
    ensures
        r@ == fst_s(pair@),
{
    match pair {
        Value::VPair(a, _) => *a,
        Value::VNeutral(n) => Value::VNeutral(Neutral::NFst(Box::new(n))),
        other => Value::VNeutral(Neutral::NFst(Box::new(neutral_from_value(other)))),
    }
}

fn elim_snd(pair: Value) -> (r: Value)
    ensures
        r@ == snd_s(pair@),
{
    match pair {
        Value::VPair(_, b) => *b,
        Value::VNeutral(n) => Value::VNeutral(Neutral::NSnd(Box::new(n))),
        other => Value::VNeutral(Neutral::NSnd(Box::new(neutral_from_value(other)))),
    }
}

fn elim_sigma(
    arena: &Arena,
    sig: &Signature,
    env: &Env,
    motive: TermId,
    elim: TermId,
    target: Value,
    Ghost(fuel): Ghost<nat>,
) -> (r: Value)
    requires
        elim_sigma_s(fuel, arena@, sig@, env@, motive, elim, target@) is Some,
    ensures
        elim_sigma_s(fuel, arena@, sig@, env@, motive, elim, target@) == Some(r@),
    decreases fuel,
{
    let ghost f = (fuel - 1) as nat;
    let vm = eval_in(arena, sig, motive, env, Ghost(f));
    let ve = eval_in(arena, sig, elim, env, Ghost(f));
    match target {
        Value::VPair(fst, snd) => {
            let g = apply(arena, sig, ve, *fst, Ghost(f));
            apply(arena, sig, g, *snd, Ghost(f))
        },
        Value::VNeutral(n) => Value::VNeutral(
            Neutral::NSigmaElim { motive: Box::new(vm), elim: Box::new(ve), target: Box::new(n) },
        ),
        other => Value::VNeutral(
            Neutral::NSigmaElim {
                motive: Box::new(vm),
                elim: Box::new(ve),
                target: Box::new(neutral_from_value(other)),
            },
        ),
    }
}

fn elim_nat(
    arena: &Arena,
    sig: &Signature,
    env: &Env,
    motive: TermId,
    base: TermId,
    step: TermId,
    target: Value,
    Ghost(fuel): Ghost<nat>,
) -> (r: Value)
    requires
        elim_nat_s(fuel, arena@, sig@, env@, motive, base, step, target@) is Some,
    ensures
        elim_nat_s(fuel, arena@, sig@, env@, motive, base, step, target@) == Some(r@),
    decreases fuel,
{
    let ghost f = (fuel - 1) as nat;
    let vm = eval_in(arena, sig, motive, env, Ghost(f));
    let vb = eval_in(arena, sig, base, env, Ghost(f));
    let vs = eval_in(arena, sig, step, env, Ghost(f));
    match target {
        Value::VZero => vb,
        Value::VSucc(n) => {
            let pred = *n;
            let ih = elim_nat(arena, sig, env, motive, base, step, copy_value(&pred), Ghost(f));
            let g = apply(arena, sig, vs, pred, Ghost(f));
            apply(arena, sig, g, ih, Ghost(f))
        },
        Value::VNeutral(n) => Value::VNeutral(
            Neutral::NNatElim {
                motive: Box::new(vm),
                base: Box::new(vb),
                step: Box::new(vs),
                target: Box::new(n),
            },
        ),
        other => Value::VNeutral(
            Neutral::NNatElim {
                motive: Box::new(vm),
                base: Box::new(vb),
                step: Box::new(vs),
                target: Box::new(neutral_from_value(other)),
            },
        ),
    }
}

/// Reads `val` back as a term at binder depth `level`, storing the result's nodes
/// in the arena.
pub fn quote(arena: &mut Arena, sig: &Signature, val: &Value, level: usize) -> (r: TermId)
    requires
        quotes(old(arena)@, sig@, val@, level),
    ensures
        (final(arena)@, r) == quote_result(old(arena)@, sig@, val@, level),
        grows(old(arena)@, final(arena)@),
        r@ < final(arena)@.len(),
{
    let ghost fuel = choose|f: nat| #[trigger] quote_s(f, arena@, sig@, val@, level) is Some;
    quote_at(arena, sig, val, level, Ghost(fuel))
}

pub(crate) fn quote_at(arena: &mut Arena, sig: &Signature, val: &Value, level: usize, Ghost(fuel): Ghost<nat>) -> (r:
    TermId)
    requires
        quote_s(fuel, old(arena)@, sig@, val@, level) is Some,
    ensures
        quote_s(fuel, old(arena)@, sig@, val@, level) == Some((final(arena)@, r)),
        grows(old(arena)@, final(arena)@),
        r@ < final(arena)@.len(),
    decreases fuel,
{
    let ghost f = (fuel - 1) as nat;
    match val {
        Value::VType(l) => arena.typ(*l),
        Value::VPi(pi_id, env) => quote_pi(arena, sig, *pi_id, env, level, Ghost(f)),
        Value::VLam(param, body, env) => {
            let param_ty = quote_at(arena, sig, param, level, Ghost(f));
            let body_env = env.extend(Value::VNeutral(Neutral::NVar(level)));
            let body_val = eval_in(&*arena, sig, *body, &body_env, Ghost(f));
            let b = quote_at(arena, sig, &body_val, level + 1, Ghost(f));
            arena.lam(param_ty, b)
        },
        Value::VSigma(sig_id, env) => quote_sigma(arena, sig, *sig_id, env, level, Ghost(f)),
        Value::VPair(x, y) => {
            let a = quote_at(arena, sig, x, level, Ghost(f));
            let b = quote_at(arena, sig, y, level, Ghost(f));
            arena.pair(a, b)
        },
        Value::VNat => arena.nat_type(),
        Value::VZero => arena.zero(),
        Value::VSucc(n) => {
            let inner = quote_at(arena, sig, n, level, Ghost(f));
            arena.succ(inner)
        },
        Value::VConst(name, ty) => {
            let t = quote_at(arena, sig, ty, level, Ghost(f));
            let k = arena.konst(name.clone());
            arena.ann(k, t)
        },
        Value::VNeutral(n) => quote_neutral(arena, sig, n, level, Ghost(f)),
    }
}

fn quote_pi(
    arena: &mut Arena,
    sig: &Signature,
    pi_id: TermId,
    env: &Env,
    level: usize,
    Ghost(fuel): Ghost<nat>,
) -> (r: TermId)
    requires
        quote_binder_s(fuel, old(arena)@, sig@, pi_id, env@, level, true) is Some,
    ensures
        quote_binder_s(fuel, old(arena)@, sig@, pi_id, env@, level, true) == Some(
            (final(arena)@, r),
        ),
        grows(old(arena)@, final(arena)@),
        r@ < final(arena)@.len(),
    decreases fuel,
{
    let ghost f = (fuel - 1) as nat;
    let (a, b) = match arena.get(pi_id) {
        TermData::Pi(a, b) => (a, b),
        _ => return pi_id,
    };
    let dom_val = eval_in(&*arena, sig, a, env, Ghost(f));
    let dom = quote_at(arena, sig, &dom_val, level, Ghost(f));
    let body_env = env.extend(Value::VNeutral(Neutral::NVar(level)));
    let cod_val = eval_in(&*arena, sig, b, &body_env, Ghost(f));
    let cod = quote_at(arena, sig, &cod_val, level + 1, Ghost(f));
    arena.pi(dom, cod)
}

fn quote_sigma(
    arena: &mut Arena,
    sig: &Signature,
    sig_id: TermId,
    env: &Env,
    level: usize,
    Ghost(fuel): Ghost<nat>,
) -> (r: TermId)
    requires
        quote_binder_s(fuel, old(arena)@, sig@, sig_id, env@, level, false) is Some,
    ensures
        quote_binder_s(fuel, old(arena)@, sig@, sig_id, env@, level, false) == Some(
            (final(arena)@, r),
        ),
        grows(old(arena)@, final(arena)@),
        r@ < final(arena)@.len(),
    decreases fuel,
{
    let ghost f = (fuel - 1) as nat;
    let (a, b) = match arena.get(sig_id) {
        TermData::Sigma(a, b) => (a, b),
        _ => return sig_id,
    };
    let fst_val = eval_in(&*arena, sig, a, env, Ghost(f));
    let fst = quote_at(arena, sig, &fst_val, level, Ghost(f));
    let body_env = env.extend(Value::VNeutral(Neutral::NVar(level)));
    let snd_val = eval_in(&*arena, sig, b, &body_env, Ghost(f));
    let snd = quote_at(arena, sig, &snd_val, level + 1, Ghost(f));
    arena.sigma(fst, snd)
}

fn quote_neutral(
    arena: &mut Arena,
    sig: &Signature,
    n: &Neutral,
    level: usize,
    Ghost(fuel): Ghost<nat>,
) -> (r: TermId)
    requires
        quote_neutral_s(fuel, old(arena)@, sig@, n@, level) is Some,
    ensures
        quote_neutral_s(fuel, old(arena)@, sig@, n@, level) == Some((final(arena)@, r)),
        grows(old(arena)@, final(arena)@),
        r@ < final(arena)@.len(),
    decreases fuel,
{
    let ghost f = (fuel - 1) as nat;
    match n {
        Neutral::NVar(l) => arena.var(level - 1 - *l),
        Neutral::NApp(h, a) => {
            let fun = quote_neutral(arena, sig, h, level, Ghost(f));
            let x = quote_at(arena, sig, a, level, Ghost(f));
            arena.app(fun, x)
        },
        Neutral::NFst(p) => {
            let pair = quote_neutral(arena, sig, p, level, Ghost(f));
            arena.fst(pair)
        },
        Neutral::NSnd(p) => {
            let pair = quote_neutral(arena, sig, p, level, Ghost(f));
            arena.snd(pair)
        },
        Neutral::NNatElim { motive, base, step, target } => {
            let m = quote_at(arena, sig, motive, level, Ghost(f));
            let b = quote_at(arena, sig, base, level, Ghost(f));
            let s = quote_at(arena, sig, step, level, Ghost(f));
            let t = quote_neutral(arena, sig, target, level, Ghost(f));
            arena.nat_elim(m, b, s, t)
        },
        Neutral::NSigmaElim { motive, elim, target } => {
            let m = quote_at(arena, sig, motive, level, Ghost(f));
            let e = quote_at(arena, sig, elim, level, Ghost(f));
            let t = quote_neutral(arena, sig, target, level, Ghost(f));
            arena.sigma_elim(m, e, t)
        },
        Neutral::NConst(name) => arena.konst(name.clone()),
    }
}

/// The normal form of `term` in `env`: annotations are kept with both sides
/// normalized, other terms are evaluated and read back.
pub fn normalize(arena: &mut Arena, sig: &Signature, env: &Env, term: TermId) -> (r: TermId)
    requires
        normalizes_term(old(arena)@, sig@, env@, term),
    ensures
        (final(arena)@, r) == normalize_result(old(arena)@, sig@, env@, term),
        grows(old(arena)@, final(arena)@),
        r@ < final(arena)@.len(),
{
    let ghost fuel = choose|f: nat| #[trigger] normalize_s(f, arena@, sig@, env@, term) is Some;
    normalize_at(arena, sig, env, term, Ghost(fuel))
}

fn normalize_at(arena: &mut Arena, sig: &Signature, env: &Env, term: TermId, Ghost(fuel): Ghost<nat>) -> (r:
    TermId)
    requires
        normalize_s(fuel, old(arena)@, sig@, env@, term) is Some,
    ensures
        normalize_s(fuel, old(arena)@, sig@, env@, term) == Some((final(arena)@, r)),
        grows(old(arena)@, final(arena)@),
        r@ < final(arena)@.len(),
    decreases fuel,
{
    let ghost f = (fuel - 1) as nat;
    match arena.get(term) {
        TermData::Ann(t, ty) => {
            let nt = normalize_at(arena, sig, env, t, Ghost(f));
            let nty = normalize_at(arena, sig, env, ty, Ghost(f));
            arena.ann(nt, nty)
        },
        _ => {
            let v = eval_in(&*arena, sig, term, env, Ghost(f));
            quote_at(arena, sig, &v, env.len(), Ghost(f))
        },
    }
}

/// Whether the terms at `a` and `b` have the same syntax tree.
fn structural_eq(arena: &Arena, a: TermId, b: TermId) -> (r: bool)
    requires
        a@ < arena@.len(),
        b@ < arena@.len(),
    ensures
        r == structurally_equal(arena@, a, b),
    decreases a@ + b@,
{
    let da = arena.get(a);
    let db = arena.get(b);
    proof {
        assert(children_below(arena@[a@ as int], a@ as int));
        assert(children_below(arena@[b@ as int], b@ as int));
    }
    match (da, db) {
        (TermData::Var(i), TermData::Var(j)) => i == j,
        (TermData::Type(l1), TermData::Type(l2)) => l1 == l2,
        (TermData::Pi(a1, b1), TermData::Pi(a2, b2)) => structural_eq(arena, a1, a2)
            && structural_eq(arena, b1, b2),
        (TermData::Lam(t1, b1), TermData::Lam(t2, b2)) => structural_eq(arena, t1, t2)
            && structural_eq(arena, b1, b2),
        (TermData::App(f1, x1), TermData::App(f2, x2)) => structural_eq(arena, f1, f2)
            && structural_eq(arena, x1, x2),
        (TermData::Sigma(a1, b1), TermData::Sigma(a2, b2)) => structural_eq(arena, a1, a2)
            && structural_eq(arena, b1, b2),
        (TermData::Pair(x1, y1), TermData::Pair(x2, y2)) => structural_eq(arena, x1, x2)
            && structural_eq(arena, y1, y2),
        (TermData::Fst(p1), TermData::Fst(p2)) => structural_eq(arena, p1, p2),
        (TermData::Snd(p1), TermData::Snd(p2)) => structural_eq(arena, p1, p2),
        (TermData::Nat, TermData::Nat) => true,
        (TermData::Zero, TermData::Zero) => true,
        (TermData::Succ(n1), TermData::Succ(n2)) => structural_eq(arena, n1, n2),
        (
            TermData::NatElim { motive: m1, base: b1, step: s1, target: t1 },
            TermData::NatElim { motive: m2, base: b2, step: s2, target: t2 },
        ) => structural_eq(arena, m1, m2) && structural_eq(arena, b1, b2) && structural_eq(
            arena,
            s1,
            s2,
        ) && structural_eq(arena, t1, t2),
        (
            TermData::SigmaElim { motive: m1, elim: e1, target: t1 },
            TermData::SigmaElim { motive: m2, elim: e2, target: t2 },
        ) => structural_eq(arena, m1, m2) && structural_eq(arena, e1, e2) && structural_eq(
            arena,
            t1,
            t2,
        ),
        (TermData::Ann(t1, ty1), TermData::Ann(t2, ty2)) => structural_eq(arena, t1, t2)
            && structural_eq(arena, ty1, ty2),
        (TermData::Const(n1), TermData::Const(n2)) => n1.0 == n2.0,
        _ => false,
    }
}

/// Decides whether `a` and `b` are definitionally equal at the depth of `env`,
/// recording the universe constraints that the answer relies on.
pub fn def_eq(
    arena: &mut Arena,
    sig: &Signature,
    env: &Env,
    levels: &mut ConstraintSet,
    a: &Value,
    b: &Value,
) -> (r: bool)
    requires
        decides_def_eq(NbeState { terms: old(arena)@, levels: old(levels)@ }, sig@, env@, a@, b@),
    ensures
        def_eq_result(NbeState { terms: old(arena)@, levels: old(levels)@ }, sig@, env@, a@, b@)
            == (NbeState { terms: final(arena)@, levels: final(levels)@ }, r),
        grows(old(arena)@, final(arena)@),
        collects(old(levels)@, final(levels)@),
{
    let ghost st = NbeState { terms: arena@, levels: levels@ };
    let ghost fuel = choose|f: nat| #[trigger] def_eq_s(f, st, sig@, env@, a@, b@) is Some;
    def_eq_values(arena, sig, env, levels, a, b, Ghost(fuel))
}

pub(crate) fn def_eq_values(
    arena: &mut Arena,
    sig: &Signature,
    env: &Env,
    levels: &mut ConstraintSet,
    a: &Value,
    b: &Value,
    Ghost(fuel): Ghost<nat>,
) -> (r: bool)
    requires
        def_eq_s(fuel, NbeState { terms: old(arena)@, levels: old(levels)@ }, sig@, env@, a@, b@) is Some,
    ensures
        def_eq_s(fuel, NbeState { terms: old(arena)@, levels: old(levels)@ }, sig@, env@, a@, b@)
            == Some((NbeState { terms: final(arena)@, levels: final(levels)@ }, r)),
        grows(old(arena)@, final(arena)@),
        collects(old(levels)@, final(levels)@),
    decreases fuel, 0nat,
{
    let ghost f = (fuel - 1) as nat;
    if let Value::VConst(name, _) = a {
        if let Some(Entry::Def { body, .. }) = sig.get(name) {
            let unfolded = eval_in(&*arena, sig, *body, env, Ghost(f));
            return def_eq_values(arena, sig, env, levels, &unfolded, b, Ghost(f));
        }
    }
    if let Value::VConst(name, _) = b {
        if let Some(Entry::Def { body, .. }) = sig.get(name) {
            let unfolded = eval_in(&*arena, sig, *body, env, Ghost(f));
            return def_eq_values(arena, sig, env, levels, a, &unfolded, Ghost(f));
        }
    }
    match (a, b) {
        (Value::VType(l1), Value::VType(l2)) => {
            levels.equate(Level::var(*l1), Level::var(*l2));
            true
        },
        (Value::VNat, Value::VNat) => true,
        (Value::VZero, Value::VZero) => true,
        (Value::VSucc(a1), Value::VSucc(b1)) => def_eq_values(arena, sig, env, levels, a1, b1, Ghost(f)),
        (Value::VPair(x1, y1), Value::VPair(x2, y2)) => {
            if def_eq_values(arena, sig, env, levels, x1, x2, Ghost(f)) {
                def_eq_values(arena, sig, env, levels, y1, y2, Ghost(f))
            } else {
                false
            }
        },
        (Value::VPi(id1, env1), Value::VPi(id2, env2)) => def_eq_pi(
            arena,
            sig,
            env,
            levels,
            *id1,
            env1,
            *id2,
            env2,
            Ghost(f),
        ),
        (Value::VSigma(id1, env1), Value::VSigma(id2, env2)) => def_eq_sigma(
            arena,
            sig,
            env,
            levels,
            *id1,
            env1,
            *id2,
            env2,
            Ghost(f),
        ),
        (Value::VLam(_, body1, env1), Value::VLam(_, body2, env2)) => def_eq_lam(
            arena,
            sig,
            env,
            levels,
            *body1,
            env1,
            *body2,
            env2,
            Ghost(f),
        ),
        (Value::VConst(n1, _), Value::VConst(n2, _)) => n1.0 == n2.0,
        (Value::VConst(_, ty1), _) => def_eq_values(arena, sig, env, levels, ty1, b, Ghost(f)),
        (_, Value::VConst(_, ty2)) => def_eq_values(arena, sig, env, levels, a, ty2, Ghost(f)),
        (Value::VNeutral(n1), Value::VNeutral(n2)) => def_eq_neutral(
            arena,
            sig,
            env,
            levels,
            n1,
            n2,
            Ghost(f),
        ),
        _ => {
            let na = quote_at(arena, sig, a, env.len(), Ghost(f));
            let nb = quote_at(arena, sig, b, env.len(), Ghost(f));
            structural_eq(&*arena, na, nb)
        },
    }
}

fn def_eq_pi(
    arena: &mut Arena,
    sig: &Signature,
    env: &Env,
    levels: &mut ConstraintSet,
    id1: TermId,
    env1: &Env,
    id2: TermId,
    env2: &Env,
    Ghost(fuel): Ghost<nat>,
) -> (r: bool)
    requires
        def_eq_binder_s(
            fuel,
            NbeState { terms: old(arena)@, levels: old(levels)@ },
            sig@,
            env@,
            id1,
            env1@,
            id2,
            env2@,
            true,
        ) is Some,
    ensures
        def_eq_binder_s(
            fuel,
            NbeState { terms: old(arena)@, levels: old(levels)@ },
            sig@,
            env@,
            id1,
            env1@,
            id2,
            env2@,
            true,
        ) == Some((NbeState { terms: final(arena)@, levels: final(levels)@ }, r)),
        grows(old(arena)@, final(arena)@),
        collects(old(levels)@, final(levels)@),
    decreases fuel, 1nat,
{
    let ghost f = (fuel - 1) as nat;
    let (a1, b1) = match arena.get(id1) {
        TermData::Pi(a, b) => (a, b),
        _ => return false,
    };
    let (a2, b2) = match arena.get(id2) {
        TermData::Pi(a, b) => (a, b),
        _ => return false,
    };
    let dom1 = eval_in(&*arena, sig, a1, env1, Ghost(f));
    let dom2 = eval_in(&*arena, sig, a2, env2, Ghost(f));
    if !def_eq_values(arena, sig, env, levels, &dom1, &dom2, Ghost(f)) {
        return false;
    }
    let env1_ext = env1.extend(Value::VNeutral(Neutral::NVar(env.len())));
    let env2_ext = env2.extend(Value::VNeutral(Neutral::NVar(env.len())));
    let cod1 = eval_in(&*arena, sig, b1, &env1_ext, Ghost(f));
    let cod2 = eval_in(&*arena, sig, b2, &env2_ext, Ghost(f));
    def_eq_values(arena, sig, env, levels, &cod1, &cod2, Ghost(f))
}

fn def_eq_sigma(
    arena: &mut Arena,
    sig: &Signature,
    env: &Env,
    levels: &mut ConstraintSet,
    id1: TermId,
    env1: &Env,
    id2: TermId,
    env2: &Env,
    Ghost(fuel): Ghost<nat>,
) -> (r: bool)
    requires
        def_eq_binder_s(
            fuel,
            NbeState { terms: old(arena)@, levels: old(levels)@ },
            sig@,
            env@,
            id1,
            env1@,
            id2,
            env2@,
            false,
        ) is Some,
    ensures
        def_eq_binder_s(
            fuel,
            NbeState { terms: old(arena)@, levels: old(levels)@ },
            sig@,
            env@,
            id1,
            env1@,
            id2,
            env2@,
            false,
        ) == Some((NbeState { terms: final(arena)@, levels: final(levels)@ }, r)),
        grows(old(arena)@, final(arena)@),
        collects(old(levels)@, final(levels)@),
    decreases fuel, 1nat,
{
    let ghost f = (fuel - 1) as nat;
    let (a1, b1) = match arena.get(id1) {
        TermData::Sigma(a, b) => (a, b),
        _ => return false,
    };
    let (a2, b2) = match arena.get(id2) {
        TermData::Sigma(a, b) => (a, b),
        _ => return false,
    };
    let fst1 = eval_in(&*arena, sig, a1, env1, Ghost(f));
    let fst2 = eval_in(&*arena, sig, a2, env2, Ghost(f));
    if !def_eq_values(arena, sig, env, levels, &fst1, &fst2, Ghost(f)) {
        return false;
    }
    let env1_ext = env1.extend(Value::VNeutral(Neutral::NVar(env.len())));
    let env2_ext = env2.extend(Value::VNeutral(Neutral::NVar(env.len())));
    let snd1 = eval_in(&*arena, sig, b1, &env1_ext, Ghost(f));
    let snd2 = eval_in(&*arena, sig, b2, &env2_ext, Ghost(f));
    def_eq_values(arena, sig, env, levels, &snd1, &snd2, Ghost(f))
}

fn def_eq_lam(
    arena: &mut Arena,
    sig: &Signature,
    env: &Env,
    levels: &mut ConstraintSet,
    body1: TermId,
    env1: &Env,
    body2: TermId,
    env2: &Env,
    Ghost(fuel): Ghost<nat>,
) -> (r: bool)
    requires
        def_eq_lam_s(
            fuel,
            NbeState { terms: old(arena)@, levels: old(levels)@ },
            sig@,
            env@,
            body1,
            env1@,
            body2,
            env2@,
        ) is Some,
    ensures
        def_eq_lam_s(
            fuel,
            NbeState { terms: old(arena)@, levels: old(levels)@ },
            sig@,
            env@,
            body1,
            env1@,
            body2,
            env2@,
        ) == Some((NbeState { terms: final(arena)@, levels: final(levels)@ }, r)),
        grows(old(arena)@, final(arena)@),
        collects(old(levels)@, final(levels)@),
    decreases fuel, 1nat,
{
    let ghost f = (fuel - 1) as nat;
    let arg = Value::VNeutral(Neutral::NVar(env.len()));
    let v1 = eval_in(&*arena, sig, body1, &env1.extend(copy_value(&arg)), Ghost(f));
    let v2 = eval_in(&*arena, sig, body2, &env2.extend(arg), Ghost(f));
    def_eq_values(arena, sig, env, levels, &v1, &v2, Ghost(f))
}

fn def_eq_neutral(
    arena: &mut Arena,
    sig: &Signature,
    env: &Env,
    levels: &mut ConstraintSet,
    a: &Neutral,
    b: &Neutral,
    Ghost(fuel): Ghost<nat>,
) -> (r: bool)
    requires
        def_eq_neutral_s(fuel, NbeState { terms: old(arena)@, levels: old(levels)@ }, sig@, env@, a@, b@)
            is Some,
    ensures
        def_eq_neutral_s(fuel, NbeState { terms: old(arena)@, levels: old(levels)@ }, sig@, env@, a@, b@)
            == Some((NbeState { terms: final(arena)@, levels: final(levels)@ }, r)),
        grows(old(arena)@, final(arena)@),
        collects(old(levels)@, final(levels)@),
    decreases fuel, 1nat,
{
    let ghost f = (fuel - 1) as nat;
    match (a, b) {
        (Neutral::NVar(i), Neutral::NVar(j)) => *i == *j,
        (Neutral::NConst(n1), Neutral::NConst(n2)) => n1.0 == n2.0,
        (Neutral::NApp(f1, x1), Neutral::NApp(f2, x2)) => {
            if def_eq_neutral(arena, sig, env, levels, f1, f2, Ghost(f)) {
                def_eq_values(arena, sig, env, levels, x1, x2, Ghost(f))
            } else {
                false
            }
        },
        (Neutral::NFst(p1), Neutral::NFst(p2)) => def_eq_neutral(arena, sig, env, levels, p1, p2, Ghost(f)),
        (Neutral::NSnd(p1), Neutral::NSnd(p2)) => def_eq_neutral(arena, sig, env, levels, p1, p2, Ghost(f)),
        (
            Neutral::NNatElim { motive: m1, base: b1, step: s1, target: t1 },
            Neutral::NNatElim { motive: m2, base: b2, step: s2, target: t2 },
        ) => {
            if !def_eq_values(arena, sig, env, levels, m1, m2, Ghost(f)) {
                false
            } else if !def_eq_values(arena, sig, env, levels, b1, b2, Ghost(f)) {
                false
            } else if !def_eq_values(arena, sig, env, levels, s1, s2, Ghost(f)) {
                false
            } else {
                def_eq_neutral(arena, sig, env, levels, t1, t2, Ghost(f))
            }
        },
        (
            Neutral::NSigmaElim { motive: m1, elim: e1, target: t1 },
            Neutral::NSigmaElim { motive: m2, elim: e2, target: t2 },
        ) => {
            if !def_eq_values(arena, sig, env, levels, m1, m2, Ghost(f)) {
                false
            } else if !def_eq_values(arena, sig, env, levels, e1, e2, Ghost(f)) {
                false
            } else {
                def_eq_neutral(arena, sig, env, levels, t1, t2, Ghost(f))
            }
        },
        _ => {
            let t1 = quote_neutral(arena, sig, a, env.len(), Ghost(f));
            let t2 = quote_neutral(arena, sig, b, env.len(), Ghost(f));
            structural_eq(&*arena, t1, t2)
        },
    }
}

} // verus!

//! The meaning of evaluation, read-back and definitional equality, as functions
//! of the arena contents, the signature and the values involved.
//!
//! Each function takes a step budget `fuel` and yields `None` when the budget is
//! spent or when the computation goes wrong (a variable out of scope, a handle
//! outside the arena, a machine integer running out). A computation is
//! well-defined when some budget makes it yield `Some`, and then every larger
//! budget yields the same outcome (`lemma_eval_fuel`, `lemma_quote_fuel`,
//! `lemma_normalize_fuel`, `lemma_def_eq_fuel`); the `*_result` functions name
//! that outcome.
use crate::arena::alloc_s;
use crate::level::{Level, LevelsView, equate_s};
use crate::signature::Entry;
use crate::term::{Name, Syntax, TermData, TermId, keeps_trees, tree};
use crate::value::{NeutralV, ValueV};
use vstd::prelude::*;

verus! {

/// The value of de Bruijn variable `i` in `env` (innermost binding last).
pub open spec fn lookup_s(env: Seq<ValueV>, i: usize) -> Option<ValueV> {
    if i < env.len() {
        Some(env[env.len() - 1 - i])
    } else {
        None
    }
}

/// The neutral term that stands for a value in head position of a stuck
/// elimination: a neutral as itself, an opaque constant by its name, and any
/// other value by variable `0`.
pub open spec fn neutral_of(v: ValueV) -> NeutralV {
    match v {
        ValueV::VNeutral(n) => n,
        ValueV::VConst(name, _) => NeutralV::NConst(name),
        _ => NeutralV::NVar(0),
    }
}

/// First projection of a value.
pub open spec fn fst_s(v: ValueV) -> ValueV {
    match v {
        ValueV::VPair(a, _) => *a,
        _ => ValueV::VNeutral(NeutralV::NFst(Box::new(neutral_of(v)))),
    }
}

/// Second projection of a value.
pub open spec fn snd_s(v: ValueV) -> ValueV {
    match v {
        ValueV::VPair(_, b) => *b,
        _ => ValueV::VNeutral(NeutralV::NSnd(Box::new(neutral_of(v)))),
    }
}

/// The neutral value of the variable bound at level `l`.
pub open spec fn fresh_var(l: usize) -> ValueV {
    ValueV::VNeutral(NeutralV::NVar(l))
}

/// Evaluation of the term at `t` in environment `env`.
pub open spec fn eval_s(
    fuel: nat,
    a: Seq<TermData>,
    sig: Map<Seq<char>, Entry>,
    t: TermId,
    env: Seq<ValueV>,
) -> Option<ValueV>
    decreases fuel,
{
    if fuel == 0 || t@ >= a.len() {
        None
    } else {
        let f = (fuel - 1) as nat;
        match a[t@ as int] {
            TermData::Var(i) => lookup_s(env, i),
            TermData::Type(l) => Some(ValueV::VType(l)),
            TermData::Pi(_, _) => Some(ValueV::VPi(t, env)),
            TermData::Lam(ty, b) => match eval_s(f, a, sig, ty, env) {
                Some(vt) => Some(ValueV::VLam(Box::new(vt), b, env)),
                None => None,
            },
            TermData::App(x, y) => match (eval_s(f, a, sig, x, env), eval_s(f, a, sig, y, env)) {
                (Some(vf), Some(vx)) => apply_s(f, a, sig, vf, vx),
                _ => None,
            },
            TermData::Sigma(_, _) => Some(ValueV::VSigma(t, env)),
            TermData::Pair(x, y) => match (eval_s(f, a, sig, x, env), eval_s(f, a, sig, y, env)) {
                (Some(vx), Some(vy)) => Some(ValueV::VPair(Box::new(vx), Box::new(vy))),
                _ => None,
            },
            TermData::Fst(p) => match eval_s(f, a, sig, p, env) {
                Some(vp) => Some(fst_s(vp)),
                None => None,
            },
            TermData::Snd(p) => match eval_s(f, a, sig, p, env) {
                Some(vp) => Some(snd_s(vp)),
                None => None,
            },
            TermData::Nat => Some(ValueV::VNat),
            TermData::Zero => Some(ValueV::VZero),
            TermData::Succ(n) => match eval_s(f, a, sig, n, env) {
                Some(vn) => Some(ValueV::VSucc(Box::new(vn))),
                None => None,
            },
            TermData::NatElim { motive, base, step, target } => match eval_s(
                f,
                a,
                sig,
                target,
                env,
            ) {
                Some(vt) => elim_nat_s(f, a, sig, env, motive, base, step, vt),
                None => None,
            },
            TermData::SigmaElim { motive, elim, target } => match eval_s(f, a, sig, target, env) {
                Some(vt) => elim_sigma_s(f, a, sig, env, motive, elim, vt),
                None => None,
            },
            TermData::Ann(x, _) => eval_s(f, a, sig, x, env),
            TermData::Const(name) => eval_const_s(f, a, sig, name, env),
        }
    }
}

/// A constant evaluates to its definition's body, to an opaque constant carrying
/// its type when it is an axiom, and to a stuck constant when it is unknown.
pub open spec fn eval_const_s(
    fuel: nat,
    a: Seq<TermData>,
    sig: Map<Seq<char>, Entry>,
    name: Name,
    env: Seq<ValueV>,
) -> Option<ValueV>
    decreases fuel,
{
    if fuel == 0 {
        None
    } else {
        let f = (fuel - 1) as nat;
        if sig.contains_key(name.0@) {
            match sig[name.0@] {
                Entry::Def { body, .. } => eval_s(f, a, sig, body, env),
                Entry::Axiom { ty } => match eval_s(f, a, sig, ty, env) {
                    Some(vty) => Some(ValueV::VConst(name, Box::new(vty))),
                    None => None,
                },
            }
        } else {
            Some(ValueV::VNeutral(NeutralV::NConst(name)))
        }
    }
}

/// Application: a closure runs its body with the argument bound; anything else
/// becomes a stuck application.
pub open spec fn apply_s(
    fuel: nat,
    a: Seq<TermData>,
    sig: Map<Seq<char>, Entry>,
    fun: ValueV,
    arg: ValueV,
) -> Option<ValueV>
    decreases fuel,
{
    if fuel == 0 {
        None
    } else {
        let f = (fuel - 1) as nat;
        match fun {
            ValueV::VLam(_, body, env) => eval_s(f, a, sig, body, env.push(arg)),
            _ => Some(
                ValueV::VNeutral(NeutralV::NApp(Box::new(neutral_of(fun)), Box::new(arg))),
            ),
        }
    }
}

/// The eliminator of Σ-types applied to the value `target`.
pub open spec fn elim_sigma_s(
    fuel: nat,
    a: Seq<TermData>,
    sig: Map<Seq<char>, Entry>,
    env: Seq<ValueV>,
    motive: TermId,
    elim: TermId,
    target: ValueV,
) -> Option<ValueV>
    decreases fuel,
{
    if fuel == 0 {
        None
    } else {
        let f = (fuel - 1) as nat;
        match (eval_s(f, a, sig, motive, env), eval_s(f, a, sig, elim, env)) {
            (Some(vm), Some(ve)) => match target {
                ValueV::VPair(x, y) => match apply_s(f, a, sig, ve, *x) {
                    Some(g) => apply_s(f, a, sig, g, *y),
                    None => None,
                },
                _ => Some(
                    ValueV::VNeutral(
                        NeutralV::NSigmaElim {
                            motive: Box::new(vm),
                            elim: Box::new(ve),
                            target: Box::new(neutral_of(target)),
                        },
                    ),
                ),
            },
            _ => None,
        }
    }
}

/// The eliminator of the natural numbers applied to the value `target`.
pub open spec fn elim_nat_s(
    fuel: nat,
    a: Seq<TermData>,
    sig: Map<Seq<char>, Entry>,
    env: Seq<ValueV>,
    motive: TermId,
    base: TermId,
    step: TermId,
    target: ValueV,
) -> Option<ValueV>
    decreases fuel,
{
    if fuel == 0 {
        None
    } else {
        let f = (fuel - 1) as nat;
        match (
            eval_s(f, a, sig, motive, env),
            eval_s(f, a, sig, base, env),
            eval_s(f, a, sig, step, env),
        ) {
            (Some(vm), Some(vb), Some(vs)) => match target {
                ValueV::VZero => Some(vb),
                ValueV::VSucc(n) => match elim_nat_s(f, a, sig, env, motive, base, step, *n) {
                    Some(ih) => match apply_s(f, a, sig, vs, *n) {
                        Some(g) => apply_s(f, a, sig, g, ih),
                        None => None,
                    },
                    None => None,
                },
                _ => Some(
                    ValueV::VNeutral(
                        NeutralV::NNatElim {
                            motive: Box::new(vm),
                            base: Box::new(vb),
                            step: Box::new(vs),
                            target: Box::new(neutral_of(target)),
                        },
                    ),
                ),
            },
            _ => None,
        }
    }
}

/// Read-back of the value `v` as a term at binder depth `level`; the arena
/// grows by the nodes of the result.
pub open spec fn quote_s(
    fuel: nat,
    a: Seq<TermData>,
    sig: Map<Seq<char>, Entry>,
    v: ValueV,
    level: usize,
) -> Option<(Seq<TermData>, TermId)>
    decreases fuel,
{
    if fuel == 0 {
        None
    } else {
        let f = (fuel - 1) as nat;
        match v {
            ValueV::VType(l) => Some(alloc_s(a, TermData::Type(l))),
            ValueV::VPi(id, env) => quote_binder_s(f, a, sig, id, env, level, true),
            ValueV::VLam(param, body, env) => match quote_s(f, a, sig, *param, level) {
                Some((a1, p)) => match eval_s(f, a1, sig, body, env.push(fresh_var(level))) {
                    Some(bv) => if level == usize::MAX {
                        None
                    } else {
                        match quote_s(f, a1, sig, bv, (level + 1) as usize) {
                            Some((a2, b)) => Some(alloc_s(a2, TermData::Lam(p, b))),
                            None => None,
                        }
                    },
                    None => None,
                },
                None => None,
            },
            ValueV::VSigma(id, env) => quote_binder_s(f, a, sig, id, env, level, false),
            ValueV::VPair(x, y) => match quote_s(f, a, sig, *x, level) {
                Some((a1, tx)) => match quote_s(f, a1, sig, *y, level) {
                    Some((a2, ty)) => Some(alloc_s(a2, TermData::Pair(tx, ty))),
                    None => None,
                },
                None => None,
            },
            ValueV::VNat => Some(alloc_s(a, TermData::Nat)),
            ValueV::VZero => Some(alloc_s(a, TermData::Zero)),
            ValueV::VSucc(n) => match quote_s(f, a, sig, *n, level) {
                Some((a1, tn)) => Some(alloc_s(a1, TermData::Succ(tn))),
                None => None,
            },
            ValueV::VConst(name, ty) => match quote_s(f, a, sig, *ty, level) {
                Some((a1, t)) => {
                    let (a2, k) = alloc_s(a1, TermData::Const(name));
                    Some(alloc_s(a2, TermData::Ann(k, t)))
                },
                None => None,
            },
            ValueV::VNeutral(n) => quote_neutral_s(f, a, sig, n, level),
        }
    }
}

/// The binder node (`Pi` when `is_pi`, else `Sigma`) stored at `id`, if it is one.
pub open spec fn binder_parts(a: Seq<TermData>, id: TermId, is_pi: bool) -> Option<
    (TermId, TermId),
> {
    match a[id@ as int] {
        TermData::Pi(x, y) => if is_pi {
            Some((x, y))
        } else {
            None
        },
        TermData::Sigma(x, y) => if is_pi {
            None
        } else {
            Some((x, y))
        },
        _ => None,
    }
}

/// Read-back of a Π-type (`is_pi`) or Σ-type closure: both components are read
/// back, the second under one more binder. A closure whose term is not of the
/// expected kind reads back as that term itself.
pub open spec fn quote_binder_s(
    fuel: nat,
    a: Seq<TermData>,
    sig: Map<Seq<char>, Entry>,
    id: TermId,
    env: Seq<ValueV>,
    level: usize,
    is_pi: bool,
) -> Option<(Seq<TermData>, TermId)>
    decreases fuel,
{
    if fuel == 0 || id@ >= a.len() {
        None
    } else {
        let f = (fuel - 1) as nat;
        match binder_parts(a, id, is_pi) {
            None => Some((a, id)),
            Some((x, y)) => match eval_s(f, a, sig, x, env) {
                Some(vx) => match quote_s(f, a, sig, vx, level) {
                    Some((a1, tx)) => match eval_s(f, a1, sig, y, env.push(fresh_var(level))) {
                        Some(vy) => if level == usize::MAX {
                            None
                        } else {
                            match quote_s(f, a1, sig, vy, (level + 1) as usize) {
                                Some((a2, ty)) => Some(
                                    alloc_s(
                                        a2,
                                        if is_pi {
                                            TermData::Pi(tx, ty)
                                        } else {
                                            TermData::Sigma(tx, ty)
                                        },
                                    ),
                                ),
                                None => None,
                            }
                        },
                        None => None,
                    },
                    None => None,
                },
                None => None,
            },
        }
    }
}

/// Read-back of a neutral term at binder depth `level`; the variable bound at
/// level `l` becomes de Bruijn index `level - 1 - l`.
pub open spec fn quote_neutral_s(
    fuel: nat,
    a: Seq<TermData>,
    sig: Map<Seq<char>, Entry>,
    n: NeutralV,
    level: usize,
) -> Option<(Seq<TermData>, TermId)>
    decreases fuel,
{
    if fuel == 0 {
        None
    } else {
        let f = (fuel - 1) as nat;
        match n {
            NeutralV::NVar(l) => if level > l {
                Some(alloc_s(a, TermData::Var((level - 1 - l) as usize)))
            } else {
                None
            },
            NeutralV::NApp(h, x) => match quote_neutral_s(f, a, sig, *h, level) {
                Some((a1, th)) => match quote_s(f, a1, sig, *x, level) {
                    Some((a2, tx)) => Some(alloc_s(a2, TermData::App(th, tx))),
                    None => None,
                },
                None => None,
            },
            NeutralV::NFst(p) => match quote_neutral_s(f, a, sig, *p, level) {
                Some((a1, tp)) => Some(alloc_s(a1, TermData::Fst(tp))),
                None => None,
            },
            NeutralV::NSnd(p) => match quote_neutral_s(f, a, sig, *p, level) {
                Some((a1, tp)) => Some(alloc_s(a1, TermData::Snd(tp))),
                None => None,
            },
            NeutralV::NNatElim { motive, base, step, target } => match quote_s(
                f,
                a,
                sig,
                *motive,
                level,
            ) {
                Some((a1, m)) => match quote_s(f, a1, sig, *base, level) {
                    Some((a2, b)) => match quote_s(f, a2, sig, *step, level) {
                        Some((a3, s)) => match quote_neutral_s(f, a3, sig, *target, level) {
                            Some((a4, t)) => Some(
                                alloc_s(
                                    a4,
                                    TermData::NatElim { motive: m, base: b, step: s, target: t },
                                ),
                            ),
                            None => None,
                        },
                        None => None,
                    },
                    None => None,
                },
                None => None,
            },
            NeutralV::NSigmaElim { motive, elim, target } => match quote_s(
                f,
                a,
                sig,
                *motive,
                level,
            ) {
                Some((a1, m)) => match quote_s(f, a1, sig, *elim, level) {
                    Some((a2, e)) => match quote_neutral_s(f, a2, sig, *target, level) {
                        Some((a3, t)) => Some(
                            alloc_s(a3, TermData::SigmaElim { motive: m, elim: e, target: t }),
                        ),
                        None => None,
                    },
                    None => None,
                },
                None => None,
            },
            NeutralV::NConst(name) => Some(alloc_s(a, TermData::Const(name))),
        }
    }
}

/// Normalization of the term at `t` in `env`: annotations are kept and both
/// sides normalized; any other term is evaluated and read back at the depth of
/// `env`.
pub open spec fn normalize_s(
    fuel: nat,
    a: Seq<TermData>,
    sig: Map<Seq<char>, Entry>,
    env: Seq<ValueV>,
    t: TermId,
) -> Option<(Seq<TermData>, TermId)>
    decreases fuel,
{
    if fuel == 0 || t@ >= a.len() {
        None
    } else {
        let f = (fuel - 1) as nat;
        match a[t@ as int] {
            TermData::Ann(x, ty) => match normalize_s(f, a, sig, env, x) {
                Some((a1, nx)) => match normalize_s(f, a1, sig, env, ty) {
                    Some((a2, nty)) => Some(alloc_s(a2, TermData::Ann(nx, nty))),
                    None => None,
                },
                None => None,
            },
            _ => match eval_s(f, a, sig, t, env) {
                Some(v) => quote_s(f, a, sig, v, env.len() as usize),
                None => None,
            },
        }
    }
}

/// The state that definitional equality and type checking change: the arena's
/// terms and the universe constraints.
pub struct NbeState {
    pub terms: Seq<TermData>,
    pub levels: LevelsView,
}

/// Two terms of the arena are structurally equal when their syntax trees are.
pub open spec fn structurally_equal(a: Seq<TermData>, x: TermId, y: TermId) -> bool {
    tree(a, x) == tree(a, y)
}

/// The definition body of a constant value, when it is a defined constant.
pub open spec fn def_body(sig: Map<Seq<char>, Entry>, v: ValueV) -> Option<TermId> {
    match v {
        ValueV::VConst(name, _) => if sig.contains_key(name.0@) {
            match sig[name.0@] {
                Entry::Def { body, .. } => Some(body),
                _ => None,
            }
        } else {
            None
        },
        _ => None,
    }
}

/// Definitional equality of two values at the depth of `env`. Defined constants
/// are unfolded, universes are equated (recording the constraints), closures are
/// compared under a fresh variable, an opaque constant is compared by its type
/// with any other value, and mismatched shapes are read back and compared
/// structurally.
pub open spec fn def_eq_s(
    fuel: nat,
    st: NbeState,
    sig: Map<Seq<char>, Entry>,
    env: Seq<ValueV>,
    x: ValueV,
    y: ValueV,
) -> Option<(NbeState, bool)>
    decreases fuel,
{
    if fuel == 0 {
        None
    } else {
        let f = (fuel - 1) as nat;
        if def_body(sig, x) is Some {
            match eval_s(f, st.terms, sig, def_body(sig, x).unwrap(), env) {
                Some(u) => def_eq_s(f, st, sig, env, u, y),
                None => None,
            }
        } else if def_body(sig, y) is Some {
            match eval_s(f, st.terms, sig, def_body(sig, y).unwrap(), env) {
                Some(u) => def_eq_s(f, st, sig, env, x, u),
                None => None,
            }
        } else {
            match (x, y) {
                (ValueV::VType(l1), ValueV::VType(l2)) => Some(
                    (
                        NbeState {
                            levels: equate_s(st.levels, Level::Var(l1), Level::Var(l2)),
                            ..st
                        },
                        true,
                    ),
                ),
                (ValueV::VNat, ValueV::VNat) => Some((st, true)),
                (ValueV::VZero, ValueV::VZero) => Some((st, true)),
                (ValueV::VSucc(x1), ValueV::VSucc(y1)) => def_eq_s(f, st, sig, env, *x1, *y1),
                (ValueV::VPair(x1, x2), ValueV::VPair(y1, y2)) => match def_eq_s(
                    f,
                    st,
                    sig,
                    env,
                    *x1,
                    *y1,
                ) {
                    Some((st1, true)) => def_eq_s(f, st1, sig, env, *x2, *y2),
                    other => other,
                },
                (ValueV::VPi(id1, env1), ValueV::VPi(id2, env2)) => def_eq_binder_s(
                    f,
                    st,
                    sig,
                    env,
                    id1,
                    env1,
                    id2,
                    env2,
                    true,
                ),
                (ValueV::VSigma(id1, env1), ValueV::VSigma(id2, env2)) => def_eq_binder_s(
                    f,
                    st,
                    sig,
                    env,
                    id1,
                    env1,
                    id2,
                    env2,
                    false,
                ),
                (ValueV::VLam(_, b1, env1), ValueV::VLam(_, b2, env2)) => def_eq_lam_s(
                    f,
                    st,
                    sig,
                    env,
                    b1,
                    env1,
                    b2,
                    env2,
                ),
                (ValueV::VConst(n1, _), ValueV::VConst(n2, _)) => Some((st, n1.0@ == n2.0@)),
                (ValueV::VConst(_, ty1), _) => def_eq_s(f, st, sig, env, *ty1, y),
                (_, ValueV::VConst(_, ty2)) => def_eq_s(f, st, sig, env, x, *ty2),
                (ValueV::VNeutral(n1), ValueV::VNeutral(n2)) => def_eq_neutral_s(
                    f,
                    st,
                    sig,
                    env,
                    n1,
                    n2,
                ),
                _ => match quote_s(f, st.terms, sig, x, env.len() as usize) {
                    Some((a1, tx)) => match quote_s(f, a1, sig, y, env.len() as usize) {
                        Some((a2, ty)) => Some(
                            (NbeState { terms: a2, ..st }, structurally_equal(a2, tx, ty)),
                        ),
                        None => None,
                    },
                    None => None,
                },
            }
        }
    }
}

/// Definitional equality of two Π-type (`is_pi`) or Σ-type closures: the
/// components are compared, the second ones both opened with the variable bound
/// at the depth of `env`. A closure
/// whose term is not of the expected kind is unequal to anything.
pub open spec fn def_eq_binder_s(
    fuel: nat,
    st: NbeState,
    sig: Map<Seq<char>, Entry>,
    env: Seq<ValueV>,
    id1: TermId,
    env1: Seq<ValueV>,
    id2: TermId,
    env2: Seq<ValueV>,
    is_pi: bool,
) -> Option<(NbeState, bool)>
    decreases fuel,
{
    if fuel == 0 || id1@ >= st.terms.len() {
        None
    } else {
        let f = (fuel - 1) as nat;
        match binder_parts(st.terms, id1, is_pi) {
            None => Some((st, false)),
            Some((a1, b1)) => if id2@ >= st.terms.len() {
                None
            } else {
                match binder_parts(st.terms, id2, is_pi) {
                    None => Some((st, false)),
                    Some((a2, b2)) => match (
                        eval_s(f, st.terms, sig, a1, env1),
                        eval_s(f, st.terms, sig, a2, env2),
                    ) {
                        (Some(d1), Some(d2)) => match def_eq_s(f, st, sig, env, d1, d2) {
                            Some((st1, true)) => match (
                                eval_s(f, st1.terms, sig, b1, env1.push(fresh_var(env.len() as usize))),
                                eval_s(f, st1.terms, sig, b2, env2.push(fresh_var(env.len() as usize))),
                            ) {
                                (Some(c1), Some(c2)) => def_eq_s(f, st1, sig, env, c1, c2),
                                _ => None,
                            },
                            other => other,
                        },
                        _ => None,
                    },
                }
            },
        }
    }
}

/// Definitional equality of two closures: their bodies are compared under the
/// variable bound at the depth of `env`.
pub open spec fn def_eq_lam_s(
    fuel: nat,
    st: NbeState,
    sig: Map<Seq<char>, Entry>,
    env: Seq<ValueV>,
    b1: TermId,
    env1: Seq<ValueV>,
    b2: TermId,
    env2: Seq<ValueV>,
) -> Option<(NbeState, bool)>
    decreases fuel,
{
    if fuel == 0 {
        None
    } else {
        let f = (fuel - 1) as nat;
        let arg = fresh_var(env.len() as usize);
        match (eval_s(f, st.terms, sig, b1, env1.push(arg)), eval_s(f, st.terms, sig, b2, env2.push(arg))) {
            (Some(v1), Some(v2)) => def_eq_s(f, st, sig, env, v1, v2),
            _ => None,
        }
    }
}

/// Definitional equality of two neutral terms: the same head under the same
/// eliminations with equal arguments; mismatched shapes are read back and
/// compared structurally.
pub open spec fn def_eq_neutral_s(
    fuel: nat,
    st: NbeState,
    sig: Map<Seq<char>, Entry>,
    env: Seq<ValueV>,
    x: NeutralV,
    y: NeutralV,
) -> Option<(NbeState, bool)>
    decreases fuel,
{
    if fuel == 0 {
        None
    } else {
        let f = (fuel - 1) as nat;
        match (x, y) {
            (NeutralV::NVar(i), NeutralV::NVar(j)) => Some((st, i == j)),
            (NeutralV::NConst(n1), NeutralV::NConst(n2)) => Some((st, n1.0@ == n2.0@)),
            (NeutralV::NApp(f1, x1), NeutralV::NApp(f2, x2)) => match def_eq_neutral_s(
                f,
                st,
                sig,
                env,
                *f1,
                *f2,
            ) {
                Some((st1, true)) => def_eq_s(f, st1, sig, env, *x1, *x2),
                other => other,
            },
            (NeutralV::NFst(p1), NeutralV::NFst(p2)) => def_eq_neutral_s(f, st, sig, env, *p1, *p2),
            (NeutralV::NSnd(p1), NeutralV::NSnd(p2)) => def_eq_neutral_s(f, st, sig, env, *p1, *p2),
            (
                NeutralV::NNatElim { motive: m1, base: b1, step: s1, target: t1 },
                NeutralV::NNatElim { motive: m2, base: b2, step: s2, target: t2 },
            ) => match def_eq_s(f, st, sig, env, *m1, *m2) {
                Some((st1, true)) => match def_eq_s(f, st1, sig, env, *b1, *b2) {
                    Some((st2, true)) => match def_eq_s(f, st2, sig, env, *s1, *s2) {
                        Some((st3, true)) => def_eq_neutral_s(f, st3, sig, env, *t1, *t2),
                        other => other,
                    },
                    other => other,
                },
                other => other,
            },
            (
                NeutralV::NSigmaElim { motive: m1, elim: e1, target: t1 },
                NeutralV::NSigmaElim { motive: m2, elim: e2, target: t2 },
            ) => match def_eq_s(f, st, sig, env, *m1, *m2) {
                Some((st1, true)) => match def_eq_s(f, st1, sig, env, *e1, *e2) {
                    Some((st2, true)) => def_eq_neutral_s(f, st2, sig, env, *t1, *t2),
                    other => other,
                },
                other => other,
            },
            _ => match quote_neutral_s(f, st.terms, sig, x, env.len() as usize) {
                Some((a1, tx)) => match quote_neutral_s(f, a1, sig, y, env.len() as usize) {
                    Some((a2, ty)) => Some(
                        (NbeState { terms: a2, ..st }, structurally_equal(a2, tx, ty)),
                    ),
                    None => None,
                },
                None => None,
            },
        }
    }
}

} // verus!

verus! {

/// Evaluation of `t` in `env` terminates without error.
pub open spec fn evaluates(
    a: Seq<TermData>,
    sig: Map<Seq<char>, Entry>,
    t: TermId,
    env: Seq<ValueV>,
) -> bool {
    exists|f: nat| #[trigger] eval_s(f, a, sig, t, env) is Some
}

/// The value of `t` in `env` (meaningful when `evaluates` holds).
pub open spec fn eval_result(
    a: Seq<TermData>,
    sig: Map<Seq<char>, Entry>,
    t: TermId,
    env: Seq<ValueV>,
) -> ValueV {
    eval_s(choose|f: nat| #[trigger] eval_s(f, a, sig, t, env) is Some, a, sig, t, env).unwrap()
}

/// Read-back of `v` at depth `level` terminates without error.
pub open spec fn quotes(
    a: Seq<TermData>,
    sig: Map<Seq<char>, Entry>,
    v: ValueV,
    level: usize,
) -> bool {
    exists|f: nat| #[trigger] quote_s(f, a, sig, v, level) is Some
}

/// The arena after reading back `v`, and the read-back term (meaningful when
/// `quotes` holds).
pub open spec fn quote_result(
    a: Seq<TermData>,
    sig: Map<Seq<char>, Entry>,
    v: ValueV,
    level: usize,
) -> (Seq<TermData>, TermId) {
    quote_s(choose|f: nat| #[trigger] quote_s(f, a, sig, v, level) is Some, a, sig, v, level).unwrap()
}

/// Normalization of `t` in `env` terminates without error.
pub open spec fn normalizes_term(
    a: Seq<TermData>,
    sig: Map<Seq<char>, Entry>,
    env: Seq<ValueV>,
    t: TermId,
) -> bool {
    exists|f: nat| #[trigger] normalize_s(f, a, sig, env, t) is Some
}

/// The arena after normalizing `t`, and the normal form.
pub open spec fn normalize_result(
    a: Seq<TermData>,
    sig: Map<Seq<char>, Entry>,
    env: Seq<ValueV>,
    t: TermId,
) -> (Seq<TermData>, TermId) {
    normalize_s(choose|f: nat| #[trigger] normalize_s(f, a, sig, env, t) is Some, a, sig, env, t).unwrap()
}

/// Deciding definitional equality of `x` and `y` terminates without error.
pub open spec fn decides_def_eq(
    st: NbeState,
    sig: Map<Seq<char>, Entry>,
    env: Seq<ValueV>,
    x: ValueV,
    y: ValueV,
) -> bool {
    exists|f: nat| #[trigger] def_eq_s(f, st, sig, env, x, y) is Some
}

/// The state after deciding definitional equality of `x` and `y`, and the answer.
pub open spec fn def_eq_result(
    st: NbeState,
    sig: Map<Seq<char>, Entry>,
    env: Seq<ValueV>,
    x: ValueV,
    y: ValueV,
) -> (NbeState, bool) {
    def_eq_s(choose|f: nat| #[trigger] def_eq_s(f, st, sig, env, x, y) is Some, st, sig, env, x, y).unwrap()
}

/// `b` extends `a`: the nodes of `a` stay where they are.
pub open spec fn grows(a: Seq<TermData>, b: Seq<TermData>) -> bool {
    a.len() <= b.len() && forall|i: int| 0 <= i < a.len() ==> #[trigger] b[i] == a[i]
}

/// Growing an arena keeps every term: each handle into the smaller arena names
/// the same syntax tree in the larger one.
pub proof fn lemma_grows_keeps_trees(a: Seq<TermData>, b: Seq<TermData>)
    requires
        grows(a, b),
    ensures
        keeps_trees(a, b),
{
    assert forall|id: TermId| id@ < a.len() implies #[trigger] tree(b, id) == tree(a, id) by {
        lemma_grows_tree(a, b, id);
    }
}

proof fn lemma_grows_tree(a: Seq<TermData>, b: Seq<TermData>, id: TermId)
    requires
        grows(a, b),
        id@ < a.len(),
    ensures
        tree(b, id) == tree(a, id),
    decreases id@,
{
    assert(b[id@ as int] == a[id@ as int]);
    match a[id@ as int] {
        TermData::Pi(x, y) | TermData::Lam(x, y) | TermData::App(x, y) | TermData::Sigma(x, y)
        | TermData::Pair(x, y) | TermData::Ann(x, y) => {
            if x@ < id@ {
                lemma_grows_tree(a, b, x);
            }
            if y@ < id@ {
                lemma_grows_tree(a, b, y);
            }
        },
        TermData::Fst(p) | TermData::Snd(p) | TermData::Succ(p) => {
            if p@ < id@ {
                lemma_grows_tree(a, b, p);
            }
        },
        TermData::NatElim { motive, base, step, target } => {
            if motive@ < id@ {
                lemma_grows_tree(a, b, motive);
            }
            if base@ < id@ {
                lemma_grows_tree(a, b, base);
            }
            if step@ < id@ {
                lemma_grows_tree(a, b, step);
            }
            if target@ < id@ {
                lemma_grows_tree(a, b, target);
            }
        },
        TermData::SigmaElim { motive, elim, target } => {
            if motive@ < id@ {
                lemma_grows_tree(a, b, motive);
            }
            if elim@ < id@ {
                lemma_grows_tree(a, b, elim);
            }
            if target@ < id@ {
                lemma_grows_tree(a, b, target);
            }
        },
        _ => {},
    }
}

/// Evaluation is independent of the budget: once a budget suffices, every larger
/// one gives the same value.
pub proof fn lemma_eval_fuel(
    f1: nat,
    f2: nat,
    a: Seq<TermData>,
    sig: Map<Seq<char>, Entry>,
    t: TermId,
    env: Seq<ValueV>,
)
    requires
        f1 <= f2,
        eval_s(f1, a, sig, t, env) is Some,
    ensures
        eval_s(f2, a, sig, t, env) == eval_s(f1, a, sig, t, env),
    decreases f1, 1nat,
{
    let g1 = (f1 - 1) as nat;
    let g2 = (f2 - 1) as nat;
    match a[t@ as int] {
        TermData::Lam(ty, _) => {
            lemma_eval_fuel(g1, g2, a, sig, ty, env);
        },
        TermData::App(x, y) => {
            lemma_eval_fuel(g1, g2, a, sig, x, env);
            lemma_eval_fuel(g1, g2, a, sig, y, env);
            lemma_apply_fuel(
                g1,
                g2,
                a,
                sig,
                eval_s(g1, a, sig, x, env).unwrap(),
                eval_s(g1, a, sig, y, env).unwrap(),
            );
        },
        TermData::Pair(x, y) => {
            lemma_eval_fuel(g1, g2, a, sig, x, env);
            lemma_eval_fuel(g1, g2, a, sig, y, env);
        },
        TermData::Fst(p) | TermData::Snd(p) | TermData::Succ(p) | TermData::Ann(p, _) => {
            lemma_eval_fuel(g1, g2, a, sig, p, env);
        },
        TermData::NatElim { motive, base, step, target } => {
            lemma_eval_fuel(g1, g2, a, sig, target, env);
            lemma_elim_nat_fuel(
                g1,
                g2,
                a,
                sig,
                env,
                motive,
                base,
                step,
                eval_s(g1, a, sig, target, env).unwrap(),
            );
        },
        TermData::SigmaElim { motive, elim, target } => {
            lemma_eval_fuel(g1, g2, a, sig, target, env);
            lemma_elim_sigma_fuel(
                g1,
                g2,
                a,
                sig,
                env,
                motive,
                elim,
                eval_s(g1, a, sig, target, env).unwrap(),
            );
        },
        TermData::Const(name) => {
            lemma_eval_const_fuel(g1, g2, a, sig, name, env);
        },
        _ => {},
    }
}

proof fn lemma_eval_const_fuel(
    f1: nat,
    f2: nat,
    a: Seq<TermData>,
    sig: Map<Seq<char>, Entry>,
    name: Name,
    env: Seq<ValueV>,
)
    requires
        f1 <= f2,
        eval_const_s(f1, a, sig, name, env) is Some,
    ensures
        eval_const_s(f2, a, sig, name, env) == eval_const_s(f1, a, sig, name, env),
    decreases f1, 0nat,
{
    let g1 = (f1 - 1) as nat;
    let g2 = (f2 - 1) as nat;
    if sig.contains_key(name.0@) {
        match sig[name.0@] {
            Entry::Def { body, .. } => lemma_eval_fuel(g1, g2, a, sig, body, env),
            Entry::Axiom { ty } => lemma_eval_fuel(g1, g2, a, sig, ty, env),
        }
    }
}

proof fn lemma_apply_fuel(
    f1: nat,
    f2: nat,
    a: Seq<TermData>,
    sig: Map<Seq<char>, Entry>,
    fun: ValueV,
    arg: ValueV,
)
    requires
        f1 <= f2,
        apply_s(f1, a, sig, fun, arg) is Some,
    ensures
        apply_s(f2, a, sig, fun, arg) == apply_s(f1, a, sig, fun, arg),
    decreases f1, 0nat,
{
    if let ValueV::VLam(_, body, env) = fun {
        lemma_eval_fuel((f1 - 1) as nat, (f2 - 1) as nat, a, sig, body, env.push(arg));
    }
}

proof fn lemma_elim_sigma_fuel(
    f1: nat,
    f2: nat,
    a: Seq<TermData>,
    sig: Map<Seq<char>, Entry>,
    env: Seq<ValueV>,
    motive: TermId,
    elim: TermId,
    target: ValueV,
)
    requires
        f1 <= f2,
        elim_sigma_s(f1, a, sig, env, motive, elim, target) is Some,
    ensures
        elim_sigma_s(f2, a, sig, env, motive, elim, target) == elim_sigma_s(
            f1,
            a,
            sig,
            env,
            motive,
            elim,
            target,
        ),
    decreases f1, 0nat,
{
    let g1 = (f1 - 1) as nat;
    let g2 = (f2 - 1) as nat;
    lemma_eval_fuel(g1, g2, a, sig, motive, env);
    lemma_eval_fuel(g1, g2, a, sig, elim, env);
    let ve = eval_s(g1, a, sig, elim, env).unwrap();
    if let ValueV::VPair(x, y) = target {
        lemma_apply_fuel(g1, g2, a, sig, ve, *x);
        let g = apply_s(g1, a, sig, ve, *x).unwrap();
        lemma_apply_fuel(g1, g2, a, sig, g, *y);
    }
}

proof fn lemma_elim_nat_fuel(
    f1: nat,
    f2: nat,
    a: Seq<TermData>,
    sig: Map<Seq<char>, Entry>,
    env: Seq<ValueV>,
    motive: TermId,
    base: TermId,
    step: TermId,
    target: ValueV,
)
    requires
        f1 <= f2,
        elim_nat_s(f1, a, sig, env, motive, base, step, target) is Some,
    ensures
        elim_nat_s(f2, a, sig, env, motive, base, step, target) == elim_nat_s(
            f1,
            a,
            sig,
            env,
            motive,
            base,
            step,
            target,
        ),
    decreases f1, 0nat,
{
    let g1 = (f1 - 1) as nat;
    let g2 = (f2 - 1) as nat;
    lemma_eval_fuel(g1, g2, a, sig, motive, env);
    lemma_eval_fuel(g1, g2, a, sig, base, env);
    lemma_eval_fuel(g1, g2, a, sig, step, env);
    let vs = eval_s(g1, a, sig, step, env).unwrap();
    if let ValueV::VSucc(n) = target {
        lemma_elim_nat_fuel(g1, g2, a, sig, env, motive, base, step, *n);
        let ih = elim_nat_s(g1, a, sig, env, motive, base, step, *n).unwrap();
        lemma_apply_fuel(g1, g2, a, sig, vs, *n);
        let g = apply_s(g1, a, sig, vs, *n).unwrap();
        lemma_apply_fuel(g1, g2, a, sig, g, ih);
    }
}

/// The value `eval_result` names is the one every sufficient budget gives.
pub proof fn lemma_eval_result(a: Seq<TermData>, sig: Map<Seq<char>, Entry>, t: TermId, env: Seq<ValueV>, f: nat)
    requires
        eval_s(f, a, sig, t, env) is Some,
    ensures
        evaluates(a, sig, t, env),
        eval_result(a, sig, t, env) == eval_s(f, a, sig, t, env).unwrap(),
{
    let g = choose|g: nat| #[trigger] eval_s(g, a, sig, t, env) is Some;
    if g <= f {
        lemma_eval_fuel(g, f, a, sig, t, env);
    } else {
        lemma_eval_fuel(f, g, a, sig, t, env);
    }
}

/// Read-back is independent of the budget: once a budget suffices, every larger
/// one gives the same arena and term.
pub proof fn lemma_quote_fuel(
    f1: nat,
    f2: nat,
    a: Seq<TermData>,
    sig: Map<Seq<char>, Entry>,
    v: ValueV,
    level: usize,
)
    requires
        f1 <= f2,
        quote_s(f1, a, sig, v, level) is Some,
    ensures
        quote_s(f2, a, sig, v, level) == quote_s(f1, a, sig, v, level),
    decreases f1, 1nat,
{
    let g1 = (f1 - 1) as nat;
    let g2 = (f2 - 1) as nat;
    match v {
        ValueV::VPi(id, env) => lemma_quote_binder_fuel(g1, g2, a, sig, id, env, level, true),
        ValueV::VSigma(id, env) => lemma_quote_binder_fuel(g1, g2, a, sig, id, env, level, false),
        ValueV::VLam(param, body, env) => {
            lemma_quote_fuel(g1, g2, a, sig, *param, level);
            let (a1, _) = quote_s(g1, a, sig, *param, level).unwrap();
            let benv = env.push(fresh_var(level));
            lemma_eval_fuel(g1, g2, a1, sig, body, benv);
            let bv = eval_s(g1, a1, sig, body, benv).unwrap();
            lemma_quote_fuel(g1, g2, a1, sig, bv, (level + 1) as usize);
        },
        ValueV::VPair(x, y) => {
            lemma_quote_fuel(g1, g2, a, sig, *x, level);
            let (a1, _) = quote_s(g1, a, sig, *x, level).unwrap();
            lemma_quote_fuel(g1, g2, a1, sig, *y, level);
        },
        ValueV::VSucc(n) => lemma_quote_fuel(g1, g2, a, sig, *n, level),
        ValueV::VConst(_, ty) => lemma_quote_fuel(g1, g2, a, sig, *ty, level),
        ValueV::VNeutral(n) => lemma_quote_neutral_fuel(g1, g2, a, sig, n, level),
        _ => {},
    }
}

proof fn lemma_quote_binder_fuel(
    f1: nat,
    f2: nat,
    a: Seq<TermData>,
    sig: Map<Seq<char>, Entry>,
    id: TermId,
    env: Seq<ValueV>,
    level: usize,
    is_pi: bool,
)
    requires
        f1 <= f2,
        quote_binder_s(f1, a, sig, id, env, level, is_pi) is Some,
    ensures
        quote_binder_s(f2, a, sig, id, env, level, is_pi) == quote_binder_s(f1, a, sig, id, env, level, is_pi),
    decreases f1, 0nat,
{
    let g1 = (f1 - 1) as nat;
    let g2 = (f2 - 1) as nat;
    if let Some((x, y)) = binder_parts(a, id, is_pi) {
        lemma_eval_fuel(g1, g2, a, sig, x, env);
        let vx = eval_s(g1, a, sig, x, env).unwrap();
        lemma_quote_fuel(g1, g2, a, sig, vx, level);
        let (a1, _) = quote_s(g1, a, sig, vx, level).unwrap();
        let yenv = env.push(fresh_var(level));
        lemma_eval_fuel(g1, g2, a1, sig, y, yenv);
        let vy = eval_s(g1, a1, sig, y, yenv).unwrap();
        lemma_quote_fuel(g1, g2, a1, sig, vy, (level + 1) as usize);
    }
}

proof fn lemma_quote_neutral_fuel(
    f1: nat,
    f2: nat,
    a: Seq<TermData>,
    sig: Map<Seq<char>, Entry>,
    n: NeutralV,
    level: usize,
)
    requires
        f1 <= f2,
        quote_neutral_s(f1, a, sig, n, level) is Some,
    ensures
        quote_neutral_s(f2, a, sig, n, level) == quote_neutral_s(f1, a, sig, n, level),
    decreases f1, 0nat,
{
    let g1 = (f1 - 1) as nat;
    let g2 = (f2 - 1) as nat;
    match n {
        NeutralV::NApp(h, x) => {
            lemma_quote_neutral_fuel(g1, g2, a, sig, *h, level);
            let (a1, _) = quote_neutral_s(g1, a, sig, *h, level).unwrap();
            lemma_quote_fuel(g1, g2, a1, sig, *x, level);
        },
        NeutralV::NFst(p) | NeutralV::NSnd(p) => lemma_quote_neutral_fuel(g1, g2, a, sig, *p, level),
        NeutralV::NNatElim { motive, base, step, target } => {
            lemma_quote_fuel(g1, g2, a, sig, *motive, level);
            let (a1, _) = quote_s(g1, a, sig, *motive, level).unwrap();
            lemma_quote_fuel(g1, g2, a1, sig, *base, level);
            let (a2, _) = quote_s(g1, a1, sig, *base, level).unwrap();
            lemma_quote_fuel(g1, g2, a2, sig, *step, level);
            let (a3, _) = quote_s(g1, a2, sig, *step, level).unwrap();
            lemma_quote_neutral_fuel(g1, g2, a3, sig, *target, level);
        },
        NeutralV::NSigmaElim { motive, elim, target } => {
            lemma_quote_fuel(g1, g2, a, sig, *motive, level);
            let (a1, _) = quote_s(g1, a, sig, *motive, level).unwrap();
            lemma_quote_fuel(g1, g2, a1, sig, *elim, level);
            let (a2, _) = quote_s(g1, a1, sig, *elim, level).unwrap();
            lemma_quote_neutral_fuel(g1, g2, a2, sig, *target, level);
        },
        _ => {},
    }
}

/// Normalization is independent of the budget: once a budget suffices, every
/// larger one gives the same arena and normal form.
pub proof fn lemma_normalize_fuel(
    f1: nat,
    f2: nat,
    a: Seq<TermData>,
    sig: Map<Seq<char>, Entry>,
    env: Seq<ValueV>,
    t: TermId,
)
    requires
        f1 <= f2,
        normalize_s(f1, a, sig, env, t) is Some,
    ensures
        normalize_s(f2, a, sig, env, t) == normalize_s(f1, a, sig, env, t),
    decreases f1,
{
    let g1 = (f1 - 1) as nat;
    let g2 = (f2 - 1) as nat;
    match a[t@ as int] {
        TermData::Ann(x, ty) => {
            lemma_normalize_fuel(g1, g2, a, sig, env, x);
            let (a1, _) = normalize_s(g1, a, sig, env, x).unwrap();
            lemma_normalize_fuel(g1, g2, a1, sig, env, ty);
        },
        _ => {
            lemma_eval_fuel(g1, g2, a, sig, t, env);
            lemma_quote_fuel(g1, g2, a, sig, eval_s(g1, a, sig, t, env).unwrap(), env.len() as usize);
        },
    }
}

/// Definitional equality is independent of the budget: once a budget suffices,
/// every larger one gives the same state and answer.
pub proof fn lemma_def_eq_fuel(
    f1: nat,
    f2: nat,
    st: NbeState,
    sig: Map<Seq<char>, Entry>,
    env: Seq<ValueV>,
    x: ValueV,
    y: ValueV,
)
    requires
        f1 <= f2,
        def_eq_s(f1, st, sig, env, x, y) is Some,
    ensures
        def_eq_s(f2, st, sig, env, x, y) == def_eq_s(f1, st, sig, env, x, y),
    decreases f1, 1nat,
{
    let g1 = (f1 - 1) as nat;
    let g2 = (f2 - 1) as nat;
    let a = st.terms;
    let n = env.len() as usize;
    if def_body(sig, x) is Some {
        let b = def_body(sig, x).unwrap();
        lemma_eval_fuel(g1, g2, a, sig, b, env);
        lemma_def_eq_fuel(g1, g2, st, sig, env, eval_s(g1, a, sig, b, env).unwrap(), y);
    } else if def_body(sig, y) is Some {
        let b = def_body(sig, y).unwrap();
        lemma_eval_fuel(g1, g2, a, sig, b, env);
        lemma_def_eq_fuel(g1, g2, st, sig, env, x, eval_s(g1, a, sig, b, env).unwrap());
    } else {
        match (x, y) {
            (ValueV::VType(_), ValueV::VType(_)) => {},
            (ValueV::VNat, ValueV::VNat) => {},
            (ValueV::VZero, ValueV::VZero) => {},
            (ValueV::VSucc(x1), ValueV::VSucc(y1)) => {
                lemma_def_eq_fuel(g1, g2, st, sig, env, *x1, *y1);
            },
            (ValueV::VPair(x1, x2), ValueV::VPair(y1, y2)) => {
                lemma_def_eq_fuel(g1, g2, st, sig, env, *x1, *y1);
                if let Some((st1, true)) = def_eq_s(g1, st, sig, env, *x1, *y1) {
                    lemma_def_eq_fuel(g1, g2, st1, sig, env, *x2, *y2);
                }
            },
            (ValueV::VPi(id1, env1), ValueV::VPi(id2, env2)) => {
                lemma_def_eq_binder_fuel(g1, g2, st, sig, env, id1, env1, id2, env2, true);
            },
            (ValueV::VSigma(id1, env1), ValueV::VSigma(id2, env2)) => {
                lemma_def_eq_binder_fuel(g1, g2, st, sig, env, id1, env1, id2, env2, false);
            },
            (ValueV::VLam(_, b1, env1), ValueV::VLam(_, b2, env2)) => {
                lemma_def_eq_lam_fuel(g1, g2, st, sig, env, b1, env1, b2, env2);
            },
            (ValueV::VConst(_, _), ValueV::VConst(_, _)) => {},
            (ValueV::VConst(_, ty1), _) => {
                lemma_def_eq_fuel(g1, g2, st, sig, env, *ty1, y);
            },
            (_, ValueV::VConst(_, ty2)) => {
                lemma_def_eq_fuel(g1, g2, st, sig, env, x, *ty2);
            },
            (ValueV::VNeutral(n1), ValueV::VNeutral(n2)) => {
                lemma_def_eq_neutral_fuel(g1, g2, st, sig, env, n1, n2);
            },
            _ => {
                lemma_quote_fuel(g1, g2, a, sig, x, n);
                let (a1, _) = quote_s(g1, a, sig, x, n).unwrap();
                lemma_quote_fuel(g1, g2, a1, sig, y, n);
            },
        }
    }
}

proof fn lemma_def_eq_binder_fuel(
    f1: nat,
    f2: nat,
    st: NbeState,
    sig: Map<Seq<char>, Entry>,
    env: Seq<ValueV>,
    id1: TermId,
    env1: Seq<ValueV>,
    id2: TermId,
    env2: Seq<ValueV>,
    is_pi: bool,
)
    requires
        f1 <= f2,
        def_eq_binder_s(f1, st, sig, env, id1, env1, id2, env2, is_pi) is Some,
    ensures
        def_eq_binder_s(f2, st, sig, env, id1, env1, id2, env2, is_pi) == def_eq_binder_s(
            f1,
            st,
            sig,
            env,
            id1,
            env1,
            id2,
            env2,
            is_pi,
        ),
    decreases f1, 0nat,
{
    let g1 = (f1 - 1) as nat;
    let g2 = (f2 - 1) as nat;
    let a = st.terms;
    if let Some((a1, b1)) = binder_parts(a, id1, is_pi) {
        if id2@ < a.len() {
            if let Some((a2, b2)) = binder_parts(a, id2, is_pi) {
                lemma_eval_fuel(g1, g2, a, sig, a1, env1);
                lemma_eval_fuel(g1, g2, a, sig, a2, env2);
                let d1 = eval_s(g1, a, sig, a1, env1).unwrap();
                let d2 = eval_s(g1, a, sig, a2, env2).unwrap();
                lemma_def_eq_fuel(g1, g2, st, sig, env, d1, d2);
                if let Some((st1, true)) = def_eq_s(g1, st, sig, env, d1, d2) {
                    let e1 = env1.push(fresh_var(env.len() as usize));
                    let e2 = env2.push(fresh_var(env.len() as usize));
                    lemma_eval_fuel(g1, g2, st1.terms, sig, b1, e1);
                    lemma_eval_fuel(g1, g2, st1.terms, sig, b2, e2);
                    lemma_def_eq_fuel(
                        g1,
                        g2,
                        st1,
                        sig,
                        env,
                        eval_s(g1, st1.terms, sig, b1, e1).unwrap(),
                        eval_s(g1, st1.terms, sig, b2, e2).unwrap(),
                    );
                }
            }
        }
    }
}

proof fn lemma_def_eq_lam_fuel(
    f1: nat,
    f2: nat,
    st: NbeState,
    sig: Map<Seq<char>, Entry>,
    env: Seq<ValueV>,
    b1: TermId,
    env1: Seq<ValueV>,
    b2: TermId,
    env2: Seq<ValueV>,
)
    requires
        f1 <= f2,
        def_eq_lam_s(f1, st, sig, env, b1, env1, b2, env2) is Some,
    ensures
        def_eq_lam_s(f2, st, sig, env, b1, env1, b2, env2) == def_eq_lam_s(f1, st, sig, env, b1, env1, b2, env2),
    decreases f1, 0nat,
{
    let g1 = (f1 - 1) as nat;
    let g2 = (f2 - 1) as nat;
    let arg = fresh_var(env.len() as usize);
    lemma_eval_fuel(g1, g2, st.terms, sig, b1, env1.push(arg));
    lemma_eval_fuel(g1, g2, st.terms, sig, b2, env2.push(arg));
    lemma_def_eq_fuel(
        g1,
        g2,
        st,
        sig,
        env,
        eval_s(g1, st.terms, sig, b1, env1.push(arg)).unwrap(),
        eval_s(g1, st.terms, sig, b2, env2.push(arg)).unwrap(),
    );
}

proof fn lemma_def_eq_neutral_fuel(
    f1: nat,
    f2: nat,
    st: NbeState,
    sig: Map<Seq<char>, Entry>,
    env: Seq<ValueV>,
    x: NeutralV,
    y: NeutralV,
)
    requires
        f1 <= f2,
        def_eq_neutral_s(f1, st, sig, env, x, y) is Some,
    ensures
        def_eq_neutral_s(f2, st, sig, env, x, y) == def_eq_neutral_s(f1, st, sig, env, x, y),
    decreases f1, 0nat,
{
    let g1 = (f1 - 1) as nat;
    let g2 = (f2 - 1) as nat;
    let n = env.len() as usize;
    match (x, y) {
        (NeutralV::NVar(_), NeutralV::NVar(_)) => {},
        (NeutralV::NConst(_), NeutralV::NConst(_)) => {},
        (NeutralV::NApp(h1, x1), NeutralV::NApp(h2, x2)) => {
            lemma_def_eq_neutral_fuel(g1, g2, st, sig, env, *h1, *h2);
            if let Some((st1, true)) = def_eq_neutral_s(g1, st, sig, env, *h1, *h2) {
                lemma_def_eq_fuel(g1, g2, st1, sig, env, *x1, *x2);
            }
        },
        (NeutralV::NFst(p1), NeutralV::NFst(p2)) => {
            lemma_def_eq_neutral_fuel(g1, g2, st, sig, env, *p1, *p2);
        },
        (NeutralV::NSnd(p1), NeutralV::NSnd(p2)) => {
            lemma_def_eq_neutral_fuel(g1, g2, st, sig, env, *p1, *p2);
        },
        (
            NeutralV::NNatElim { motive: m1, base: b1, step: s1, target: t1 },
            NeutralV::NNatElim { motive: m2, base: b2, step: s2, target: t2 },
        ) => {
            lemma_def_eq_fuel(g1, g2, st, sig, env, *m1, *m2);
            if let Some((st1, true)) = def_eq_s(g1, st, sig, env, *m1, *m2) {
                lemma_def_eq_fuel(g1, g2, st1, sig, env, *b1, *b2);
                if let Some((st2, true)) = def_eq_s(g1, st1, sig, env, *b1, *b2) {
                    lemma_def_eq_fuel(g1, g2, st2, sig, env, *s1, *s2);
                    if let Some((st3, true)) = def_eq_s(g1, st2, sig, env, *s1, *s2) {
                        lemma_def_eq_neutral_fuel(g1, g2, st3, sig, env, *t1, *t2);
                    }
                }
            }
        },
        (
            NeutralV::NSigmaElim { motive: m1, elim: e1, target: t1 },
            NeutralV::NSigmaElim { motive: m2, elim: e2, target: t2 },
        ) => {
            lemma_def_eq_fuel(g1, g2, st, sig, env, *m1, *m2);
            if let Some((st1, true)) = def_eq_s(g1, st, sig, env, *m1, *m2) {
                lemma_def_eq_fuel(g1, g2, st1, sig, env, *e1, *e2);
                if let Some((st2, true)) = def_eq_s(g1, st1, sig, env, *e1, *e2) {
                    lemma_def_eq_neutral_fuel(g1, g2, st2, sig, env, *t1, *t2);
                }
            }
        },
        _ => {
            lemma_quote_neutral_fuel(g1, g2, st.terms, sig, x, n);
            let (a1, _) = quote_neutral_s(g1, st.terms, sig, x, n).unwrap();
            lemma_quote_neutral_fuel(g1, g2, a1, sig, y, n);
        },
    }
}

/// The outcome `quote_result` names is the one every sufficient budget gives.
pub proof fn lemma_quote_result(a: Seq<TermData>, sig: Map<Seq<char>, Entry>, v: ValueV, level: usize, f: nat)
    requires
        quote_s(f, a, sig, v, level) is Some,
    ensures
        quotes(a, sig, v, level),
        quote_result(a, sig, v, level) == quote_s(f, a, sig, v, level).unwrap(),
{
    let g = choose|g: nat| #[trigger] quote_s(g, a, sig, v, level) is Some;
    if g <= f {
        lemma_quote_fuel(g, f, a, sig, v, level);
    } else {
        lemma_quote_fuel(f, g, a, sig, v, level);
    }
}

/// The outcome `normalize_result` names is the one every sufficient budget gives.
pub proof fn lemma_normalize_result(
    a: Seq<TermData>,
    sig: Map<Seq<char>, Entry>,
    env: Seq<ValueV>,
    t: TermId,
    f: nat,
)
    requires
        normalize_s(f, a, sig, env, t) is Some,
    ensures
        normalizes_term(a, sig, env, t),
        normalize_result(a, sig, env, t) == normalize_s(f, a, sig, env, t).unwrap(),
{
    let g = choose|g: nat| #[trigger] normalize_s(g, a, sig, env, t) is Some;
    if g <= f {
        lemma_normalize_fuel(g, f, a, sig, env, t);
    } else {
        lemma_normalize_fuel(f, g, a, sig, env, t);
    }
}

/// The outcome `def_eq_result` names is the one every sufficient budget gives.
pub proof fn lemma_def_eq_result(
    st: NbeState,
    sig: Map<Seq<char>, Entry>,
    env: Seq<ValueV>,
    x: ValueV,
    y: ValueV,
    f: nat,
)
    requires
        def_eq_s(f, st, sig, env, x, y) is Some,
    ensures
        decides_def_eq(st, sig, env, x, y),
        def_eq_result(st, sig, env, x, y) == def_eq_s(f, st, sig, env, x, y).unwrap(),
{
    let g = choose|g: nat| #[trigger] def_eq_s(g, st, sig, env, x, y) is Some;
    if g <= f {
        lemma_def_eq_fuel(g, f, st, sig, env, x, y);
    } else {
        lemma_def_eq_fuel(f, g, st, sig, env, x, y);
    }
}

/// How constants evaluate: a definition unfolds to the value of its body, an
/// axiom stays opaque and carries the value of its type, and a name that the
/// signature does not know is a stuck constant.
pub proof fn lemma_eval_constant(a: Seq<TermData>, sig: Map<Seq<char>, Entry>, t: TermId, env: Seq<ValueV>)
    requires
        t@ < a.len(),
        a[t@ as int] is Const,
    ensures
        ({
            let name = a[t@ as int]->Const_0;
            if !sig.contains_key(name.0@) {
                &&& evaluates(a, sig, t, env)
                &&& eval_result(a, sig, t, env) == ValueV::VNeutral(NeutralV::NConst(name))
            } else {
                match sig[name.0@] {
                    Entry::Def { body, .. } => {
                        &&& evaluates(a, sig, t, env) == evaluates(a, sig, body, env)
                        &&& evaluates(a, sig, body, env) ==> eval_result(a, sig, t, env)
                            == eval_result(a, sig, body, env)
                    },
                    Entry::Axiom { ty } => {
                        &&& evaluates(a, sig, t, env) == evaluates(a, sig, ty, env)
                        &&& evaluates(a, sig, ty, env) ==> eval_result(a, sig, t, env)
                            == ValueV::VConst(name, Box::new(eval_result(a, sig, ty, env)))
                    },
                }
            }
        }),
{
    let name = a[t@ as int]->Const_0;
    assert(forall|f: nat| f > 0 ==> #[trigger] eval_s(f, a, sig, t, env) == eval_const_s((f - 1) as nat, a, sig, name, env));
    if !sig.contains_key(name.0@) {
        assert(eval_const_s(1, a, sig, name, env) == Some(ValueV::VNeutral(NeutralV::NConst(name))));
        assert(eval_s(2, a, sig, t, env) == Some(ValueV::VNeutral(NeutralV::NConst(name))));
        lemma_eval_result(a, sig, t, env, 2);
    } else {
        let u = match sig[name.0@] {
            Entry::Def { body, .. } => body,
            Entry::Axiom { ty } => ty,
        };
        assert(forall|f: nat| f > 0 ==> #[trigger] eval_const_s(f, a, sig, name, env) == match sig[name.0@] {
            Entry::Def { .. } => eval_s((f - 1) as nat, a, sig, u, env),
            Entry::Axiom { .. } => match eval_s((f - 1) as nat, a, sig, u, env) {
                Some(vty) => Some(ValueV::VConst(name, Box::new(vty))),
                None => None,
            },
        });
        if evaluates(a, sig, t, env) {
            let f = choose|f: nat| #[trigger] eval_s(f, a, sig, t, env) is Some;
            assert(eval_s(f, a, sig, t, env) is Some);
            assert(f > 0);
            assert(eval_const_s((f - 1) as nat, a, sig, name, env) is Some);
            assert(f >= 2);
            assert(eval_s((f - 2) as nat, a, sig, u, env) is Some);
            lemma_eval_result(a, sig, u, env, (f - 2) as nat);
            lemma_eval_result(a, sig, t, env, f);
        }
        if evaluates(a, sig, u, env) {
            let g = choose|g: nat| #[trigger] eval_s(g, a, sig, u, env) is Some;
            assert(eval_s(g, a, sig, u, env) is Some);
            assert(eval_const_s(g + 1, a, sig, name, env) is Some);
            assert(eval_s(g + 2, a, sig, t, env) is Some);
            lemma_eval_result(a, sig, u, env, g);
            lemma_eval_result(a, sig, t, env, g + 2);
        }
    }
}

/// The numeral `n`: `n` successors of zero.
pub open spec fn numeral(n: nat) -> Syntax
    decreases n,
{
    if n == 0 {
        Syntax::Zero
    } else {
        Syntax::Succ(Box::new(numeral((n - 1) as nat)))
    }
}

/// The value of the numeral `n`.
pub open spec fn numeral_value(n: nat) -> ValueV
    decreases n,
{
    if n == 0 {
        ValueV::VZero
    } else {
        ValueV::VSucc(Box::new(numeral_value((n - 1) as nat)))
    }
}

proof fn lemma_eval_numeral(
    g: nat,
    a: Seq<TermData>,
    sig: Map<Seq<char>, Entry>,
    t: TermId,
    env: Seq<ValueV>,
    n: nat,
)
    requires
        tree(a, t) == numeral(n),
    ensures
        g > n ==> eval_s(g, a, sig, t, env) is Some,
        eval_s(g, a, sig, t, env) is Some ==> eval_s(g, a, sig, t, env) == Some(numeral_value(n)),
    decreases n,
{
    assert(t@ < a.len());
    if n == 0 {
        match a[t@ as int] {
            TermData::Zero => {},
            _ => assert(false),
        }
    } else {
        assert(numeral(n) == Syntax::Succ(Box::new(numeral((n - 1) as nat))));
        match a[t@ as int] {
            TermData::Succ(p) => {
                assert(p@ < t@);
                assert(tree(a, p) == numeral((n - 1) as nat));
                if g > 0 {
                    lemma_eval_numeral((g - 1) as nat, a, sig, p, env, (n - 1) as nat);
                }
            },
            _ => assert(false),
        }
    }
}

proof fn lemma_quote_numeral(g: nat, a: Seq<TermData>, sig: Map<Seq<char>, Entry>, n: nat, level: usize)
    requires
        a.len() + n < usize::MAX,
    ensures
        g > n ==> quote_s(g, a, sig, numeral_value(n), level) is Some,
        quote_s(g, a, sig, numeral_value(n), level) matches Some((b, r)) ==> {
            &&& b.len() == a.len() + n + 1
            &&& r@ < b.len()
            &&& tree(b, r) == numeral(n)
        },
    decreases n,
{
    broadcast use crate::term::group_term_id;

    if g > 0 {
        if n == 0 {
            let r = crate::term::term_id(a.len() as usize);
            assert(r@ == a.len());
            assert(a.push(TermData::Zero)[r@ as int] == TermData::Zero);
            assert(tree(a.push(TermData::Zero), r) == Syntax::Zero);
        } else {
            let m = (n - 1) as nat;
            assert(numeral_value(n) == ValueV::VSucc(Box::new(numeral_value(m))));
            assert(numeral(n) == Syntax::Succ(Box::new(numeral(m))));
            lemma_quote_numeral((g - 1) as nat, a, sig, m, level);
            if let Some((a1, tn)) = quote_s((g - 1) as nat, a, sig, numeral_value(m), level) {
                let b = a1.push(TermData::Succ(tn));
                let r = crate::term::term_id(a1.len() as usize);
                assert(r@ == a1.len());
                crate::term::lemma_tree_push(a1, TermData::Succ(tn), tn);
                assert(b[r@ as int] == TermData::Succ(tn));
                assert(tree(b, r) == Syntax::Succ(Box::new(tree(b, tn))));
            }
        }
    }
}

/// Normalizing a closed numeral is the identity on its structure: normalization
/// terminates, in any environment, and yields a term with the same syntax tree
/// (for an arena with room for the read-back nodes).
pub proof fn lemma_normalize_numeral(
    a: Seq<TermData>,
    sig: Map<Seq<char>, Entry>,
    env: Seq<ValueV>,
    t: TermId,
    n: nat,
)
    requires
        tree(a, t) == numeral(n),
        a.len() + n < usize::MAX,
    ensures
        normalizes_term(a, sig, env, t),
        tree(normalize_result(a, sig, env, t).0, normalize_result(a, sig, env, t).1) == numeral(n),
{
    assert(t@ < a.len());
    assert(!(a[t@ as int] is Ann)) by {
        if n == 0 {
            match a[t@ as int] {
                TermData::Ann(..) => assert(false),
                _ => {},
            }
        } else {
            assert(numeral(n) == Syntax::Succ(Box::new(numeral((n - 1) as nat))));
            match a[t@ as int] {
                TermData::Ann(..) => assert(false),
                _ => {},
            }
        }
    }
    lemma_eval_numeral(n + 1, a, sig, t, env, n);
    lemma_quote_numeral(n + 1, a, sig, n, env.len() as usize);
    assert(normalize_s(n + 2, a, sig, env, t) is Some);
    let f = choose|f: nat| #[trigger] normalize_s(f, a, sig, env, t) is Some;
    assert(normalize_s(f, a, sig, env, t) is Some);
    lemma_eval_numeral((f - 1) as nat, a, sig, t, env, n);
    lemma_quote_numeral((f - 1) as nat, a, sig, n, env.len() as usize);
}

/// β-reduction: applying a λ-term evaluates its body in the λ's environment
/// extended by the argument's value alone.
pub proof fn lemma_eval_beta(a: Seq<TermData>, sig: Map<Seq<char>, Entry>, t: TermId, env: Seq<ValueV>)
    requires
        t@ < a.len(),
        a[t@ as int] is App,
        a[t@ as int]->App_0@ < a.len(),
        a[a[t@ as int]->App_0@ as int] is Lam,
        evaluates(a, sig, t, env),
    ensures
        ({
            let x = a[t@ as int]->App_1;
            let body = a[a[t@ as int]->App_0@ as int]->Lam_1;
            &&& evaluates(a, sig, x, env)
            &&& evaluates(a, sig, body, env.push(eval_result(a, sig, x, env)))
            &&& eval_result(a, sig, t, env) == eval_result(a, sig, body, env.push(eval_result(a, sig, x, env)))
        }),
{
    let l = a[t@ as int]->App_0;
    let x = a[t@ as int]->App_1;
    let ty = a[l@ as int]->Lam_0;
    let body = a[l@ as int]->Lam_1;
    let f = choose|f: nat| #[trigger] eval_s(f, a, sig, t, env) is Some;
    assert(eval_s(f, a, sig, t, env) is Some);
    let g = (f - 1) as nat;
    assert(eval_s(g, a, sig, l, env) is Some);
    assert(eval_s(g, a, sig, x, env) is Some);
    let vx = eval_s(g, a, sig, x, env).unwrap();
    let vt = eval_s((g - 1) as nat, a, sig, ty, env).unwrap();
    assert(eval_s(g, a, sig, l, env) == Some(ValueV::VLam(Box::new(vt), body, env)));
    assert(apply_s(g, a, sig, ValueV::VLam(Box::new(vt), body, env), vx) is Some);
    let h = (g - 1) as nat;
    assert(eval_s(h, a, sig, body, env.push(vx)) is Some);
    lemma_eval_result(a, sig, x, env, g);
    lemma_eval_result(a, sig, body, env.push(vx), h);
    lemma_eval_result(a, sig, t, env, f);
}

/// The two values have the same head constructor, so definitional equality
/// compares them part by part.
pub open spec fn same_head(x: ValueV, y: ValueV) -> bool {
    match (x, y) {
        (ValueV::VType(_), ValueV::VType(_)) => true,
        (ValueV::VNat, ValueV::VNat) => true,
        (ValueV::VZero, ValueV::VZero) => true,
        (ValueV::VSucc(_), ValueV::VSucc(_)) => true,
        (ValueV::VPair(_, _), ValueV::VPair(_, _)) => true,
        (ValueV::VPi(_, _), ValueV::VPi(_, _)) => true,
        (ValueV::VSigma(_, _), ValueV::VSigma(_, _)) => true,
        (ValueV::VLam(_, _, _), ValueV::VLam(_, _, _)) => true,
        (ValueV::VNeutral(_), ValueV::VNeutral(_)) => true,
        _ => false,
    }
}

/// Definitional equality of values of different shapes is the equality of
/// their normal forms: both are read back and compared.
pub proof fn lemma_def_eq_read_back(
    st: NbeState,
    sig: Map<Seq<char>, Entry>,
    env: Seq<ValueV>,
    x: ValueV,
    y: ValueV,
)
    requires
        def_body(sig, x) is None,
        def_body(sig, y) is None,
        !(x is VConst),
        !(y is VConst),
        !same_head(x, y),
        decides_def_eq(st, sig, env, x, y),
    ensures
        ({
            let n = env.len() as usize;
            let (a1, tx) = quote_result(st.terms, sig, x, n);
            let (a2, ty) = quote_result(a1, sig, y, n);
            &&& quotes(st.terms, sig, x, n)
            &&& quotes(a1, sig, y, n)
            &&& def_eq_result(st, sig, env, x, y) == (NbeState { terms: a2, ..st }, structurally_equal(a2, tx, ty))
        }),
{
    let n = env.len() as usize;
    let f = choose|f: nat| #[trigger] def_eq_s(f, st, sig, env, x, y) is Some;
    assert(def_eq_s(f, st, sig, env, x, y) is Some);
    let g = (f - 1) as nat;
    assert(quote_s(g, st.terms, sig, x, n) is Some);
    lemma_quote_result(st.terms, sig, x, n, g);
    let a1 = quote_s(g, st.terms, sig, x, n).unwrap().0;
    assert(quote_s(g, a1, sig, y, n) is Some);
    lemma_quote_result(a1, sig, y, n, g);
    lemma_def_eq_result(st, sig, env, x, y, f);
}

} // verus!

verus! {

/// A first-order value at depth `n`: built from `Nat`, numerals and pairs, and
/// from stuck terms whose head is a variable bound below `n` or a constant under
/// applications and projections. Universes, closures and opaque constants are
/// not first-order.
pub open spec fn first_order(v: ValueV, n: usize) -> bool
    decreases v,
{
    match v {
        ValueV::VNat | ValueV::VZero => true,
        ValueV::VSucc(m) => first_order(*m, n),
        ValueV::VPair(x, y) => first_order(*x, n) && first_order(*y, n),
        ValueV::VNeutral(ne) => first_order_neutral(ne, n),
        _ => false,
    }
}

/// A first-order stuck term at depth `n` (see `first_order`).
pub open spec fn first_order_neutral(ne: NeutralV, n: usize) -> bool
    decreases ne,
{
    match ne {
        NeutralV::NVar(l) => l < n,
        NeutralV::NConst(_) => true,
        NeutralV::NApp(h, x) => first_order_neutral(*h, n) && first_order(*x, n),
        NeutralV::NFst(p) | NeutralV::NSnd(p) => first_order_neutral(*p, n),
        _ => false,
    }
}

/// The normal form of a first-order value at depth `n`, as a syntax tree: the
/// variable bound at level `l` is de Bruijn index `n - 1 - l`.
pub open spec fn normal_form(v: ValueV, n: usize) -> Syntax
    decreases v,
{
    match v {
        ValueV::VZero => Syntax::Zero,
        ValueV::VSucc(m) => Syntax::Succ(Box::new(normal_form(*m, n))),
        ValueV::VPair(x, y) => Syntax::Pair(Box::new(normal_form(*x, n)), Box::new(normal_form(*y, n))),
        ValueV::VNeutral(ne) => neutral_normal_form(ne, n),
        _ => Syntax::Nat,
    }
}

/// The normal form of a first-order stuck term at depth `n`.
pub open spec fn neutral_normal_form(ne: NeutralV, n: usize) -> Syntax
    decreases ne,
{
    match ne {
        NeutralV::NVar(l) => Syntax::Var((n - 1 - l) as usize),
        NeutralV::NConst(name) => Syntax::Const(name.0@),
        NeutralV::NApp(h, x) => Syntax::App(
            Box::new(neutral_normal_form(*h, n)),
            Box::new(normal_form(*x, n)),
        ),
        NeutralV::NFst(p) => Syntax::Fst(Box::new(neutral_normal_form(*p, n))),
        NeutralV::NSnd(p) => Syntax::Snd(Box::new(neutral_normal_form(*p, n))),
        _ => Syntax::Nat,
    }
}

/// The number of nodes in the normal form of a first-order value.
pub open spec fn value_size(v: ValueV) -> nat
    decreases v,
{
    match v {
        ValueV::VSucc(m) => 1 + value_size(*m),
        ValueV::VPair(x, y) => 1 + value_size(*x) + value_size(*y),
        ValueV::VNeutral(ne) => neutral_size(ne),
        _ => 1,
    }
}

/// The number of nodes in the normal form of a first-order stuck term.
pub open spec fn neutral_size(ne: NeutralV) -> nat
    decreases ne,
{
    match ne {
        NeutralV::NApp(h, x) => 1 + neutral_size(*h) + value_size(*x),
        NeutralV::NFst(p) | NeutralV::NSnd(p) => 1 + neutral_size(*p),
        _ => 1,
    }
}

proof fn lemma_quote_first_order(g: nat, a: Seq<TermData>, sig: Map<Seq<char>, Entry>, v: ValueV, n: usize)
    requires
        first_order(v, n),
        a.len() + value_size(v) < usize::MAX,
    ensures
        g > value_size(v) ==> quote_s(g, a, sig, v, n) is Some,
        quote_s(g, a, sig, v, n) matches Some((b, r)) ==> {
            &&& grows(a, b)
            &&& b.len() == a.len() + value_size(v)
            &&& r@ < b.len()
            &&& tree(b, r) == normal_form(v, n)
        },
    decreases v, 1nat,
{
    broadcast use crate::term::group_term_id;

    if g > 0 {
        let f = (g - 1) as nat;
        match v {
            ValueV::VNat => {
                let r = crate::term::term_id(a.len() as usize);
                assert(a.push(TermData::Nat)[r@ as int] == TermData::Nat);
            },
            ValueV::VZero => {
                let r = crate::term::term_id(a.len() as usize);
                assert(a.push(TermData::Zero)[r@ as int] == TermData::Zero);
            },
            ValueV::VSucc(m) => {
                lemma_quote_first_order(f, a, sig, *m, n);
                if let Some((a1, tm)) = quote_s(f, a, sig, *m, n) {
                    let b = a1.push(TermData::Succ(tm));
                    let r = crate::term::term_id(a1.len() as usize);
                    crate::term::lemma_tree_push(a1, TermData::Succ(tm), tm);
                    assert(b[r@ as int] == TermData::Succ(tm));
                    assert(tree(b, r) == Syntax::Succ(Box::new(tree(b, tm))));
                }
            },
            ValueV::VPair(x, y) => {
                lemma_quote_first_order(f, a, sig, *x, n);
                if let Some((a1, tx)) = quote_s(f, a, sig, *x, n) {
                    lemma_quote_first_order(f, a1, sig, *y, n);
                    if let Some((a2, ty)) = quote_s(f, a1, sig, *y, n) {
                        let b = a2.push(TermData::Pair(tx, ty));
                        let r = crate::term::term_id(a2.len() as usize);
                        lemma_grows_tree(a1, a2, tx);
                        crate::term::lemma_tree_push(a2, TermData::Pair(tx, ty), tx);
                        crate::term::lemma_tree_push(a2, TermData::Pair(tx, ty), ty);
                        assert(b[r@ as int] == TermData::Pair(tx, ty));
                        assert(tree(b, r) == Syntax::Pair(Box::new(tree(b, tx)), Box::new(tree(b, ty))));
                    }
                }
            },
            ValueV::VNeutral(ne) => {
                lemma_quote_neutral_first_order(f, a, sig, ne, n);
            },
            _ => {},
        }
    }
}

proof fn lemma_quote_neutral_first_order(
    g: nat,
    a: Seq<TermData>,
    sig: Map<Seq<char>, Entry>,
    ne: NeutralV,
    n: usize,
)
    requires
        first_order_neutral(ne, n),
        a.len() + neutral_size(ne) < usize::MAX,
    ensures
        g >= neutral_size(ne) ==> quote_neutral_s(g, a, sig, ne, n) is Some,
        quote_neutral_s(g, a, sig, ne, n) matches Some((b, r)) ==> {
            &&& grows(a, b)
            &&& b.len() == a.len() + neutral_size(ne)
            &&& r@ < b.len()
            &&& tree(b, r) == neutral_normal_form(ne, n)
        },
    decreases ne, 0nat,
{
    broadcast use crate::term::group_term_id;

    if g > 0 {
        let f = (g - 1) as nat;
        match ne {
            NeutralV::NVar(l) => {
                let d = TermData::Var((n - 1 - l) as usize);
                let r = crate::term::term_id(a.len() as usize);
                assert(a.push(d)[r@ as int] == d);
            },
            NeutralV::NConst(name) => {
                let d = TermData::Const(name);
                let r = crate::term::term_id(a.len() as usize);
                assert(a.push(d)[r@ as int] == d);
            },
            NeutralV::NApp(h, x) => {
                lemma_quote_neutral_first_order(f, a, sig, *h, n);
                if let Some((a1, th)) = quote_neutral_s(f, a, sig, *h, n) {
                    lemma_quote_first_order(f, a1, sig, *x, n);
                    if let Some((a2, tx)) = quote_s(f, a1, sig, *x, n) {
                        let b = a2.push(TermData::App(th, tx));
                        let r = crate::term::term_id(a2.len() as usize);
                        lemma_grows_tree(a1, a2, th);
                        crate::term::lemma_tree_push(a2, TermData::App(th, tx), th);
                        crate::term::lemma_tree_push(a2, TermData::App(th, tx), tx);
                        assert(b[r@ as int] == TermData::App(th, tx));
                        assert(tree(b, r) == Syntax::App(Box::new(tree(b, th)), Box::new(tree(b, tx))));
                    }
                }
            },
            NeutralV::NFst(p) => {
                lemma_quote_neutral_first_order(f, a, sig, *p, n);
                if let Some((a1, tp)) = quote_neutral_s(f, a, sig, *p, n) {
                    let b = a1.push(TermData::Fst(tp));
                    let r = crate::term::term_id(a1.len() as usize);
                    crate::term::lemma_tree_push(a1, TermData::Fst(tp), tp);
                    assert(b[r@ as int] == TermData::Fst(tp));
                    assert(tree(b, r) == Syntax::Fst(Box::new(tree(b, tp))));
                }
            },
            NeutralV::NSnd(p) => {
                lemma_quote_neutral_first_order(f, a, sig, *p, n);
                if let Some((a1, tp)) = quote_neutral_s(f, a, sig, *p, n) {
                    let b = a1.push(TermData::Snd(tp));
                    let r = crate::term::term_id(a1.len() as usize);
                    crate::term::lemma_tree_push(a1, TermData::Snd(tp), tp);
                    assert(b[r@ as int] == TermData::Snd(tp));
                    assert(tree(b, r) == Syntax::Snd(Box::new(tree(b, tp))));
                }
            },
            _ => {},
        }
    }
}


proof fn lemma_def_eq_first_order(
    g: nat,
    st: NbeState,
    sig: Map<Seq<char>, Entry>,
    env: Seq<ValueV>,
    x: ValueV,
    y: ValueV,
)
    requires
        first_order(x, env.len() as usize),
        first_order(y, env.len() as usize),
        st.terms.len() + value_size(x) + value_size(y) < usize::MAX,
    ensures
        g > value_size(x) + value_size(y) + 1 ==> def_eq_s(g, st, sig, env, x, y) is Some,
        def_eq_s(g, st, sig, env, x, y) matches Some((st2, b)) ==> {
            &&& st2.levels == st.levels
            &&& grows(st.terms, st2.terms)
            &&& st2.terms.len() <= st.terms.len() + value_size(x) + value_size(y)
            &&& b == (normal_form(x, env.len() as usize) == normal_form(y, env.len() as usize))
        },
    decreases g,
{
    let n = env.len() as usize;
    if g > 0 {
        let f = (g - 1) as nat;
        assert(def_body(sig, x) is None);
        assert(def_body(sig, y) is None);
        match (x, y) {
            (ValueV::VNat, ValueV::VNat) => {},
            (ValueV::VZero, ValueV::VZero) => {},
            (ValueV::VSucc(x1), ValueV::VSucc(y1)) => {
                lemma_def_eq_first_order(f, st, sig, env, *x1, *y1);
            },
            (ValueV::VPair(x1, x2), ValueV::VPair(y1, y2)) => {
                lemma_def_eq_first_order(f, st, sig, env, *x1, *y1);
                if let Some((st1, true)) = def_eq_s(f, st, sig, env, *x1, *y1) {
                    lemma_def_eq_first_order(f, st1, sig, env, *x2, *y2);
                }
            },
            (ValueV::VNeutral(n1), ValueV::VNeutral(n2)) => {
                lemma_def_eq_neutral_first_order(f, st, sig, env, n1, n2);
            },
            _ => {
                assert(!same_head(x, y));
                lemma_quote_first_order(f, st.terms, sig, x, n);
                if let Some((a1, tx)) = quote_s(f, st.terms, sig, x, n) {
                    lemma_quote_first_order(f, a1, sig, y, n);
                    if let Some((a2, ty)) = quote_s(f, a1, sig, y, n) {
                        lemma_grows_tree(a1, a2, tx);
                    }
                }
            },
        }
    }
}

proof fn lemma_def_eq_neutral_first_order(
    g: nat,
    st: NbeState,
    sig: Map<Seq<char>, Entry>,
    env: Seq<ValueV>,
    x: NeutralV,
    y: NeutralV,
)
    requires
        first_order_neutral(x, env.len() as usize),
        first_order_neutral(y, env.len() as usize),
        st.terms.len() + neutral_size(x) + neutral_size(y) < usize::MAX,
    ensures
        g > neutral_size(x) + neutral_size(y) ==> def_eq_neutral_s(g, st, sig, env, x, y) is Some,
        def_eq_neutral_s(g, st, sig, env, x, y) matches Some((st2, b)) ==> {
            &&& st2.levels == st.levels
            &&& grows(st.terms, st2.terms)
            &&& st2.terms.len() <= st.terms.len() + neutral_size(x) + neutral_size(y)
            &&& b == (neutral_normal_form(x, env.len() as usize) == neutral_normal_form(
                y,
                env.len() as usize,
            ))
        },
    decreases g,
{
    let n = env.len() as usize;
    if g > 0 {
        let f = (g - 1) as nat;
        match (x, y) {
            (NeutralV::NVar(i), NeutralV::NVar(j)) => {},
            (NeutralV::NConst(c1), NeutralV::NConst(c2)) => {},
            (NeutralV::NApp(f1, x1), NeutralV::NApp(f2, x2)) => {
                lemma_def_eq_neutral_first_order(f, st, sig, env, *f1, *f2);
                if let Some((st1, true)) = def_eq_neutral_s(f, st, sig, env, *f1, *f2) {
                    lemma_def_eq_first_order(f, st1, sig, env, *x1, *x2);
                }
            },
            (NeutralV::NFst(p1), NeutralV::NFst(p2)) => {
                lemma_def_eq_neutral_first_order(f, st, sig, env, *p1, *p2);
            },
            (NeutralV::NSnd(p1), NeutralV::NSnd(p2)) => {
                lemma_def_eq_neutral_first_order(f, st, sig, env, *p1, *p2);
            },
            _ => {
                lemma_quote_neutral_first_order(f, st.terms, sig, x, n);
                if let Some((a1, tx)) = quote_neutral_s(f, st.terms, sig, x, n) {
                    lemma_quote_neutral_first_order(f, a1, sig, y, n);
                    if let Some((a2, ty)) = quote_neutral_s(f, a1, sig, y, n) {
                        lemma_grows_tree(a1, a2, tx);
                    }
                }
            },
        }
    }
}

/// Definitional equality of first-order values (numerals, pairs, and stuck
/// terms built from variables in scope and constants by application and
/// projection) is the equality of their normal forms: it always terminates, its
/// answer is whether the two values read back to structurally equal terms, those
/// terms are the values' normal forms, and no universe constraint is recorded.
/// The arena must have room for both read-backs.
pub proof fn lemma_def_eq_normal_forms(
    st: NbeState,
    sig: Map<Seq<char>, Entry>,
    env: Seq<ValueV>,
    x: ValueV,
    y: ValueV,
)
    requires
        first_order(x, env.len() as usize),
        first_order(y, env.len() as usize),
        st.terms.len() + value_size(x) + value_size(y) < usize::MAX,
    ensures
        ({
            let n = env.len() as usize;
            let (a1, tx) = quote_result(st.terms, sig, x, n);
            let (a2, ty) = quote_result(a1, sig, y, n);
            &&& decides_def_eq(st, sig, env, x, y)
            &&& quotes(st.terms, sig, x, n)
            &&& quotes(a1, sig, y, n)
            &&& tree(a2, tx) == normal_form(x, n)
            &&& tree(a2, ty) == normal_form(y, n)
            &&& def_eq_result(st, sig, env, x, y).1 == structurally_equal(a2, tx, ty)
            &&& def_eq_result(st, sig, env, x, y).0.levels == st.levels
        }),
{
    let n = env.len() as usize;
    let g = value_size(x) + value_size(y) + 2;
    lemma_def_eq_first_order(g, st, sig, env, x, y);
    lemma_def_eq_result(st, sig, env, x, y, g);
    let gx = value_size(x) + 1;
    lemma_quote_first_order(gx, st.terms, sig, x, n);
    lemma_quote_result(st.terms, sig, x, n, gx);
    let (a1, tx) = quote_s(gx, st.terms, sig, x, n).unwrap();
    let gy = value_size(y) + 1;
    lemma_quote_first_order(gy, a1, sig, y, n);
    lemma_quote_result(a1, sig, y, n, gy);
    let (a2, ty) = quote_s(gy, a1, sig, y, n).unwrap();
    lemma_grows_tree(a1, a2, tx);
}

/// On first-order values definitional equality is symmetric: comparing `y`
/// with `x` gives the same answer as comparing `x` with `y`, from the same state.
pub proof fn lemma_def_eq_first_order_symmetric(
    st: NbeState,
    sig: Map<Seq<char>, Entry>,
    env: Seq<ValueV>,
    x: ValueV,
    y: ValueV,
)
    requires
        first_order(x, env.len() as usize),
        first_order(y, env.len() as usize),
        st.terms.len() + value_size(x) + value_size(y) < usize::MAX,
    ensures
        decides_def_eq(st, sig, env, x, y),
        decides_def_eq(st, sig, env, y, x),
        def_eq_result(st, sig, env, x, y).1 == def_eq_result(st, sig, env, y, x).1,
{
    let g = value_size(x) + value_size(y) + 2;
    lemma_def_eq_first_order(g, st, sig, env, x, y);
    lemma_def_eq_first_order(g, st, sig, env, y, x);
    lemma_def_eq_result(st, sig, env, x, y, g);
    lemma_def_eq_result(st, sig, env, y, x, g);
}

/// Two Π-types, or two Σ-types, are definitionally equal only if their domains
/// are: when the comparison answers `true`, both closures refer to binder nodes
/// of the expected kind, both domains evaluate, and the domains compare equal
/// from the same state.
pub proof fn lemma_def_eq_binder_domains(
    st: NbeState,
    sig: Map<Seq<char>, Entry>,
    env: Seq<ValueV>,
    id1: TermId,
    env1: Seq<ValueV>,
    id2: TermId,
    env2: Seq<ValueV>,
    is_pi: bool,
)
    requires
        ({
            let x = if is_pi { ValueV::VPi(id1, env1) } else { ValueV::VSigma(id1, env1) };
            let y = if is_pi { ValueV::VPi(id2, env2) } else { ValueV::VSigma(id2, env2) };
            decides_def_eq(st, sig, env, x, y) && def_eq_result(st, sig, env, x, y).1
        }),
    ensures
        id1@ < st.terms.len(),
        id2@ < st.terms.len(),
        binder_parts(st.terms, id1, is_pi) is Some,
        binder_parts(st.terms, id2, is_pi) is Some,
        ({
            let d1 = binder_parts(st.terms, id1, is_pi).unwrap().0;
            let d2 = binder_parts(st.terms, id2, is_pi).unwrap().0;
            let v1 = eval_result(st.terms, sig, d1, env1);
            let v2 = eval_result(st.terms, sig, d2, env2);
            &&& evaluates(st.terms, sig, d1, env1)
            &&& evaluates(st.terms, sig, d2, env2)
            &&& decides_def_eq(st, sig, env, v1, v2)
            &&& def_eq_result(st, sig, env, v1, v2).1
        }),
{
    let x = if is_pi { ValueV::VPi(id1, env1) } else { ValueV::VSigma(id1, env1) };
    let y = if is_pi { ValueV::VPi(id2, env2) } else { ValueV::VSigma(id2, env2) };
    let f = choose|f: nat| #[trigger] def_eq_s(f, st, sig, env, x, y) is Some;
    assert(def_eq_s(f, st, sig, env, x, y) is Some);
    lemma_def_eq_result(st, sig, env, x, y, f);
    assert(def_body(sig, x) is None);
    assert(def_body(sig, y) is None);
    let g1 = (f - 1) as nat;
    assert(def_eq_s(f, st, sig, env, x, y) == def_eq_binder_s(g1, st, sig, env, id1, env1, id2, env2, is_pi));
    let g = (g1 - 1) as nat;
    let (d1, _) = binder_parts(st.terms, id1, is_pi).unwrap();
    let (d2, _) = binder_parts(st.terms, id2, is_pi).unwrap();
    assert(eval_s(g, st.terms, sig, d1, env1) is Some);
    assert(eval_s(g, st.terms, sig, d2, env2) is Some);
    lemma_eval_result(st.terms, sig, d1, env1, g);
    lemma_eval_result(st.terms, sig, d2, env2, g);
    let v1 = eval_s(g, st.terms, sig, d1, env1).unwrap();
    let v2 = eval_s(g, st.terms, sig, d2, env2).unwrap();
    assert(def_eq_s(g, st, sig, env, v1, v2) is Some);
    lemma_def_eq_result(st, sig, env, v1, v2, g);
}

/// Σ-β: eliminating a pair applies the eliminator to the first component and
/// the result to the second; the value of the elimination is what those two
/// applications give.
pub proof fn lemma_eval_sigma_beta(a: Seq<TermData>, sig: Map<Seq<char>, Entry>, t: TermId, env: Seq<ValueV>)
    requires
        t@ < a.len(),
        a[t@ as int] is SigmaElim,
        evaluates(a, sig, t, env),
    ensures
        ({
            let elim = a[t@ as int]->SigmaElim_elim;
            let target = a[t@ as int]->SigmaElim_target;
            let vt = eval_result(a, sig, target, env);
            let ve = eval_result(a, sig, elim, env);
            &&& evaluates(a, sig, target, env)
            &&& evaluates(a, sig, elim, env)
            &&& vt is VPair ==> exists|g: nat|
                #![trigger apply_s(g, a, sig, ve, *vt->VPair_0)]
                apply_s(g, a, sig, ve, *vt->VPair_0) is Some && apply_s(
                    g,
                    a,
                    sig,
                    apply_s(g, a, sig, ve, *vt->VPair_0).unwrap(),
                    *vt->VPair_1,
                ) == Some(eval_result(a, sig, t, env))
        }),
{
    let motive = a[t@ as int]->SigmaElim_motive;
    let elim = a[t@ as int]->SigmaElim_elim;
    let target = a[t@ as int]->SigmaElim_target;
    let f = choose|f: nat| #[trigger] eval_s(f, a, sig, t, env) is Some;
    assert(eval_s(f, a, sig, t, env) is Some);
    lemma_eval_result(a, sig, t, env, f);
    let g1 = (f - 1) as nat;
    assert(eval_s(g1, a, sig, target, env) is Some);
    lemma_eval_result(a, sig, target, env, g1);
    let vt = eval_s(g1, a, sig, target, env).unwrap();
    assert(eval_s(f, a, sig, t, env) == elim_sigma_s(g1, a, sig, env, motive, elim, vt));
    let g = (g1 - 1) as nat;
    assert(eval_s(g, a, sig, elim, env) is Some);
    lemma_eval_result(a, sig, elim, env, g);
    let ve = eval_s(g, a, sig, elim, env).unwrap();
    if vt is VPair {
        assert(apply_s(g, a, sig, ve, *vt->VPair_0) is Some);
    }
}

/// Normalizing an annotation normalizes the annotated term and then its type,
/// and stores the annotation of the two normal forms as a new node after them.
pub proof fn lemma_normalize_annotation(a: Seq<TermData>, sig: Map<Seq<char>, Entry>, env: Seq<ValueV>, t: TermId)
    requires
        t@ < a.len(),
        a[t@ as int] is Ann,
        normalizes_term(a, sig, env, t),
    ensures
        ({
            let x = a[t@ as int]->Ann_0;
            let ty = a[t@ as int]->Ann_1;
            let (a1, nx) = normalize_result(a, sig, env, x);
            let (a2, nty) = normalize_result(a1, sig, env, ty);
            &&& normalizes_term(a, sig, env, x)
            &&& normalizes_term(a1, sig, env, ty)
            &&& normalize_result(a, sig, env, t) == alloc_s(a2, TermData::Ann(nx, nty))
        }),
{
    broadcast use crate::term::group_term_id;

    let x = a[t@ as int]->Ann_0;
    let ty = a[t@ as int]->Ann_1;
    let f = choose|f: nat| #[trigger] normalize_s(f, a, sig, env, t) is Some;
    assert(normalize_s(f, a, sig, env, t) is Some);
    lemma_normalize_result(a, sig, env, t, f);
    let g = (f - 1) as nat;
    assert(normalize_s(g, a, sig, env, x) is Some);
    lemma_normalize_result(a, sig, env, x, g);
    let (a1, nx) = normalize_s(g, a, sig, env, x).unwrap();
    assert(normalize_s(g, a1, sig, env, ty) is Some);
    lemma_normalize_result(a1, sig, env, ty, g);
}

/// Growth is transitive.
pub proof fn lemma_grows_trans(a: Seq<TermData>, b: Seq<TermData>, c: Seq<TermData>)
    requires
        grows(a, b),
        grows(b, c),
    ensures
        grows(a, c),
{
    assert forall|i: int| 0 <= i < a.len() implies #[trigger] c[i] == a[i] by {
        assert(c[i] == b[i]);
    }
}

/// Read-back only adds nodes to the arena.
pub proof fn lemma_quote_grows(f: nat, a: Seq<TermData>, sig: Map<Seq<char>, Entry>, v: ValueV, level: usize)
    ensures
        quote_s(f, a, sig, v, level) matches Some((b, _)) ==> grows(a, b),
    decreases f, 1nat,
{
    if f > 0 {
        let g = (f - 1) as nat;
        match v {
            ValueV::VPi(id, env) => lemma_quote_binder_grows(g, a, sig, id, env, level, true),
            ValueV::VSigma(id, env) => lemma_quote_binder_grows(g, a, sig, id, env, level, false),
            ValueV::VLam(param, body, env) => {
                lemma_quote_grows(g, a, sig, *param, level);
                if let Some((a1, _)) = quote_s(g, a, sig, *param, level) {
                    if let Some(bv) = eval_s(g, a1, sig, body, env.push(fresh_var(level))) {
                        if level < usize::MAX {
                            lemma_quote_grows(g, a1, sig, bv, (level + 1) as usize);
                            if let Some((a2, _)) = quote_s(g, a1, sig, bv, (level + 1) as usize) {
                                lemma_grows_trans(a, a1, a2);
                            }
                        }
                    }
                }
            },
            ValueV::VPair(x, y) => {
                lemma_quote_grows(g, a, sig, *x, level);
                if let Some((a1, _)) = quote_s(g, a, sig, *x, level) {
                    lemma_quote_grows(g, a1, sig, *y, level);
                    if let Some((a2, _)) = quote_s(g, a1, sig, *y, level) {
                        lemma_grows_trans(a, a1, a2);
                    }
                }
            },
            ValueV::VSucc(n) => lemma_quote_grows(g, a, sig, *n, level),
            ValueV::VConst(name, ty) => {
                lemma_quote_grows(g, a, sig, *ty, level);
                if let Some((a1, _)) = quote_s(g, a, sig, *ty, level) {
                    let a2 = a1.push(TermData::Const(name));
                    lemma_grows_trans(a, a1, a2);
                }
            },
            ValueV::VNeutral(n) => lemma_quote_neutral_grows(g, a, sig, n, level),
            _ => {},
        }
    }
}

proof fn lemma_quote_binder_grows(
    f: nat,
    a: Seq<TermData>,
    sig: Map<Seq<char>, Entry>,
    id: TermId,
    env: Seq<ValueV>,
    level: usize,
    is_pi: bool,
)
    ensures
        quote_binder_s(f, a, sig, id, env, level, is_pi) matches Some((b, _)) ==> grows(a, b),
    decreases f, 0nat,
{
    if f > 0 && id@ < a.len() {
        let g = (f - 1) as nat;
        if let Some((x, y)) = binder_parts(a, id, is_pi) {
            if let Some(vx) = eval_s(g, a, sig, x, env) {
                lemma_quote_grows(g, a, sig, vx, level);
                if let Some((a1, _)) = quote_s(g, a, sig, vx, level) {
                    if let Some(vy) = eval_s(g, a1, sig, y, env.push(fresh_var(level))) {
                        if level < usize::MAX {
                            lemma_quote_grows(g, a1, sig, vy, (level + 1) as usize);
                            if let Some((a2, _)) = quote_s(g, a1, sig, vy, (level + 1) as usize) {
                                lemma_grows_trans(a, a1, a2);
                            }
                        }
                    }
                }
            }
        }
    }
}

proof fn lemma_quote_neutral_grows(f: nat, a: Seq<TermData>, sig: Map<Seq<char>, Entry>, n: NeutralV, level: usize)
    ensures
        quote_neutral_s(f, a, sig, n, level) matches Some((b, _)) ==> grows(a, b),
    decreases f, 0nat,
{
    if f > 0 {
        let g = (f - 1) as nat;
        match n {
            NeutralV::NApp(h, x) => {
                lemma_quote_neutral_grows(g, a, sig, *h, level);
                if let Some((a1, _)) = quote_neutral_s(g, a, sig, *h, level) {
                    lemma_quote_grows(g, a1, sig, *x, level);
                    if let Some((a2, _)) = quote_s(g, a1, sig, *x, level) {
                        lemma_grows_trans(a, a1, a2);
                    }
                }
            },
            NeutralV::NFst(p) | NeutralV::NSnd(p) => lemma_quote_neutral_grows(g, a, sig, *p, level),
            NeutralV::NNatElim { motive, base, step, target } => {
                lemma_quote_grows(g, a, sig, *motive, level);
                if let Some((a1, _)) = quote_s(g, a, sig, *motive, level) {
                    lemma_quote_grows(g, a1, sig, *base, level);
                    if let Some((a2, _)) = quote_s(g, a1, sig, *base, level) {
                        lemma_grows_trans(a, a1, a2);
                        lemma_quote_grows(g, a2, sig, *step, level);
                        if let Some((a3, _)) = quote_s(g, a2, sig, *step, level) {
                            lemma_grows_trans(a, a2, a3);
                            lemma_quote_neutral_grows(g, a3, sig, *target, level);
                            if let Some((a4, _)) = quote_neutral_s(g, a3, sig, *target, level) {
                                lemma_grows_trans(a, a3, a4);
                            }
                        }
                    }
                }
            },
            NeutralV::NSigmaElim { motive, elim, target } => {
                lemma_quote_grows(g, a, sig, *motive, level);
                if let Some((a1, _)) = quote_s(g, a, sig, *motive, level) {
                    lemma_quote_grows(g, a1, sig, *elim, level);
                    if let Some((a2, _)) = quote_s(g, a1, sig, *elim, level) {
                        lemma_grows_trans(a, a1, a2);
                        lemma_quote_neutral_grows(g, a2, sig, *target, level);
                        if let Some((a3, _)) = quote_neutral_s(g, a2, sig, *target, level) {
                            lemma_grows_trans(a, a2, a3);
                        }
                    }
                }
            },
            _ => {},
        }
    }
}

/// Deciding definitional equality only adds nodes to the arena.
pub proof fn lemma_def_eq_grows(
    f: nat,
    st: NbeState,
    sig: Map<Seq<char>, Entry>,
    env: Seq<ValueV>,
    x: ValueV,
    y: ValueV,
)
    ensures
        def_eq_s(f, st, sig, env, x, y) matches Some((st2, _)) ==> grows(st.terms, st2.terms),
    decreases f, 1nat,
{
    if f > 0 {
        let g = (f - 1) as nat;
        let a = st.terms;
        let n = env.len() as usize;
        if def_body(sig, x) is Some {
            if let Some(u) = eval_s(g, a, sig, def_body(sig, x).unwrap(), env) {
                lemma_def_eq_grows(g, st, sig, env, u, y);
            }
        } else if def_body(sig, y) is Some {
            if let Some(u) = eval_s(g, a, sig, def_body(sig, y).unwrap(), env) {
                lemma_def_eq_grows(g, st, sig, env, x, u);
            }
        } else {
            match (x, y) {
                (ValueV::VSucc(x1), ValueV::VSucc(y1)) => {
                    lemma_def_eq_grows(g, st, sig, env, *x1, *y1);
                },
                (ValueV::VPair(x1, x2), ValueV::VPair(y1, y2)) => {
                    lemma_def_eq_grows(g, st, sig, env, *x1, *y1);
                    if let Some((st1, true)) = def_eq_s(g, st, sig, env, *x1, *y1) {
                        lemma_def_eq_grows(g, st1, sig, env, *x2, *y2);
                        if let Some((st2, _)) = def_eq_s(g, st1, sig, env, *x2, *y2) {
                            lemma_grows_trans(a, st1.terms, st2.terms);
                        }
                    }
                },
                (ValueV::VPi(id1, env1), ValueV::VPi(id2, env2)) => {
                    lemma_def_eq_binder_grows(g, st, sig, env, id1, env1, id2, env2, true);
                },
                (ValueV::VSigma(id1, env1), ValueV::VSigma(id2, env2)) => {
                    lemma_def_eq_binder_grows(g, st, sig, env, id1, env1, id2, env2, false);
                },
                (ValueV::VLam(_, b1, env1), ValueV::VLam(_, b2, env2)) => {
                    lemma_def_eq_lam_grows(g, st, sig, env, b1, env1, b2, env2);
                },
                (ValueV::VConst(_, _), ValueV::VConst(_, _)) => {},
                (ValueV::VConst(_, ty1), _) => {
                    lemma_def_eq_grows(g, st, sig, env, *ty1, y);
                },
                (_, ValueV::VConst(_, ty2)) => {
                    lemma_def_eq_grows(g, st, sig, env, x, *ty2);
                },
                (ValueV::VNeutral(n1), ValueV::VNeutral(n2)) => {
                    lemma_def_eq_neutral_grows(g, st, sig, env, n1, n2);
                },
                (ValueV::VType(_), ValueV::VType(_)) => {},
                (ValueV::VNat, ValueV::VNat) => {},
                (ValueV::VZero, ValueV::VZero) => {},
                _ => {
                    lemma_quote_grows(g, a, sig, x, n);
                    if let Some((a1, _)) = quote_s(g, a, sig, x, n) {
                        lemma_quote_grows(g, a1, sig, y, n);
                        if let Some((a2, _)) = quote_s(g, a1, sig, y, n) {
                            lemma_grows_trans(a, a1, a2);
                        }
                    }
                },
            }
        }
    }
}

proof fn lemma_def_eq_lam_grows(
    f: nat,
    st: NbeState,
    sig: Map<Seq<char>, Entry>,
    env: Seq<ValueV>,
    b1: TermId,
    env1: Seq<ValueV>,
    b2: TermId,
    env2: Seq<ValueV>,
)
    ensures
        def_eq_lam_s(f, st, sig, env, b1, env1, b2, env2) matches Some((st2, _)) ==> grows(st.terms, st2.terms),
    decreases f, 0nat,
{
    if f > 0 {
        let g = (f - 1) as nat;
        let arg = fresh_var(env.len() as usize);
        if let (Some(v1), Some(v2)) = (
            eval_s(g, st.terms, sig, b1, env1.push(arg)),
            eval_s(g, st.terms, sig, b2, env2.push(arg)),
        ) {
            lemma_def_eq_grows(g, st, sig, env, v1, v2);
        }
    }
}

proof fn lemma_def_eq_binder_grows(
    f: nat,
    st: NbeState,
    sig: Map<Seq<char>, Entry>,
    env: Seq<ValueV>,
    id1: TermId,
    env1: Seq<ValueV>,
    id2: TermId,
    env2: Seq<ValueV>,
    is_pi: bool,
)
    ensures
        def_eq_binder_s(f, st, sig, env, id1, env1, id2, env2, is_pi) matches Some((st2, _)) ==> grows(
            st.terms,
            st2.terms,
        ),
    decreases f, 0nat,
{
    if f > 0 && id1@ < st.terms.len() {
        let g = (f - 1) as nat;
        let a = st.terms;
        if let Some((a1, b1)) = binder_parts(a, id1, is_pi) {
            if id2@ < a.len() {
                if let Some((a2, b2)) = binder_parts(a, id2, is_pi) {
                    if let (Some(d1), Some(d2)) = (eval_s(g, a, sig, a1, env1), eval_s(g, a, sig, a2, env2)) {
                        lemma_def_eq_grows(g, st, sig, env, d1, d2);
                        if let Some((st1, true)) = def_eq_s(g, st, sig, env, d1, d2) {
                            let e1 = env1.push(fresh_var(env.len() as usize));
                            let e2 = env2.push(fresh_var(env.len() as usize));
                            if let (Some(c1), Some(c2)) = (
                                eval_s(g, st1.terms, sig, b1, e1),
                                eval_s(g, st1.terms, sig, b2, e2),
                            ) {
                                lemma_def_eq_grows(g, st1, sig, env, c1, c2);
                                if let Some((st2, _)) = def_eq_s(g, st1, sig, env, c1, c2) {
                                    lemma_grows_trans(a, st1.terms, st2.terms);
                                }
                            }
                        }
                    }
                }
            }
        }
    }
}

proof fn lemma_def_eq_neutral_grows(
    f: nat,
    st: NbeState,
    sig: Map<Seq<char>, Entry>,
    env: Seq<ValueV>,
    x: NeutralV,
    y: NeutralV,
)
    ensures
        def_eq_neutral_s(f, st, sig, env, x, y) matches Some((st2, _)) ==> grows(st.terms, st2.terms),
    decreases f, 0nat,
{
    if f > 0 {
        let g = (f - 1) as nat;
        let a = st.terms;
        let n = env.len() as usize;
        match (x, y) {
            (NeutralV::NVar(_), NeutralV::NVar(_)) => {},
            (NeutralV::NConst(_), NeutralV::NConst(_)) => {},
            (NeutralV::NApp(h1, x1), NeutralV::NApp(h2, x2)) => {
                lemma_def_eq_neutral_grows(g, st, sig, env, *h1, *h2);
                if let Some((st1, true)) = def_eq_neutral_s(g, st, sig, env, *h1, *h2) {
                    lemma_def_eq_grows(g, st1, sig, env, *x1, *x2);
                    if let Some((st2, _)) = def_eq_s(g, st1, sig, env, *x1, *x2) {
                        lemma_grows_trans(a, st1.terms, st2.terms);
                    }
                }
            },
            (NeutralV::NFst(p1), NeutralV::NFst(p2)) => {
                lemma_def_eq_neutral_grows(g, st, sig, env, *p1, *p2);
            },
            (NeutralV::NSnd(p1), NeutralV::NSnd(p2)) => {
                lemma_def_eq_neutral_grows(g, st, sig, env, *p1, *p2);
            },
            (
                NeutralV::NNatElim { motive: m1, base: b1, step: s1, target: t1 },
                NeutralV::NNatElim { motive: m2, base: b2, step: s2, target: t2 },
            ) => {
                lemma_def_eq_grows(g, st, sig, env, *m1, *m2);
                if let Some((st1, true)) = def_eq_s(g, st, sig, env, *m1, *m2) {
                    lemma_def_eq_grows(g, st1, sig, env, *b1, *b2);
                    if let Some((st2, true)) = def_eq_s(g, st1, sig, env, *b1, *b2) {
                        lemma_grows_trans(a, st1.terms, st2.terms);
                        lemma_def_eq_grows(g, st2, sig, env, *s1, *s2);
                        if let Some((st3, true)) = def_eq_s(g, st2, sig, env, *s1, *s2) {
                            lemma_grows_trans(a, st2.terms, st3.terms);
                            lemma_def_eq_neutral_grows(g, st3, sig, env, *t1, *t2);
                            if let Some((st4, _)) = def_eq_neutral_s(g, st3, sig, env, *t1, *t2) {
                                lemma_grows_trans(a, st3.terms, st4.terms);
                            }
                        }
                    }
                }
            },
            (
                NeutralV::NSigmaElim { motive: m1, elim: e1, target: t1 },
                NeutralV::NSigmaElim { motive: m2, elim: e2, target: t2 },
            ) => {
                lemma_def_eq_grows(g, st, sig, env, *m1, *m2);
                if let Some((st1, true)) = def_eq_s(g, st, sig, env, *m1, *m2) {
                    lemma_def_eq_grows(g, st1, sig, env, *e1, *e2);
                    if let Some((st2, true)) = def_eq_s(g, st1, sig, env, *e1, *e2) {
                        lemma_grows_trans(a, st1.terms, st2.terms);
                        lemma_def_eq_neutral_grows(g, st2, sig, env, *t1, *t2);
                        if let Some((st3, _)) = def_eq_neutral_s(g, st2, sig, env, *t1, *t2) {
                            lemma_grows_trans(a, st2.terms, st3.terms);
                        }
                    }
                }
            },
            _ => {
                lemma_quote_neutral_grows(g, a, sig, x, n);
                if let Some((a1, _)) = quote_neutral_s(g, a, sig, x, n) {
                    lemma_quote_neutral_grows(g, a1, sig, y, n);
                    if let Some((a2, _)) = quote_neutral_s(g, a1, sig, y, n) {
                        lemma_grows_trans(a, a1, a2);
                    }
                }
            },
        }
    }
}

/// ℕ-β: eliminating zero gives the base's value; eliminating a successor applies
/// the step to the predecessor and then to the elimination of the predecessor.
pub proof fn lemma_eval_nat_beta(a: Seq<TermData>, sig: Map<Seq<char>, Entry>, t: TermId, env: Seq<ValueV>)
    requires
        t@ < a.len(),
        a[t@ as int] is NatElim,
        evaluates(a, sig, t, env),
    ensures
        ({
            let motive = a[t@ as int]->NatElim_motive;
            let base = a[t@ as int]->NatElim_base;
            let step = a[t@ as int]->NatElim_step;
            let target = a[t@ as int]->NatElim_target;
            let vt = eval_result(a, sig, target, env);
            let vs = eval_result(a, sig, step, env);
            &&& evaluates(a, sig, target, env)
            &&& evaluates(a, sig, base, env)
            &&& evaluates(a, sig, step, env)
            &&& vt is VZero ==> eval_result(a, sig, t, env) == eval_result(a, sig, base, env)
            &&& vt is VSucc ==> exists|g: nat|
                #![trigger elim_nat_s(g, a, sig, env, motive, base, step, *vt->VSucc_0)]
                {
                    let ih = elim_nat_s(g, a, sig, env, motive, base, step, *vt->VSucc_0);
                    let h = apply_s(g, a, sig, vs, *vt->VSucc_0);
                    &&& ih is Some
                    &&& h is Some
                    &&& apply_s(g, a, sig, h.unwrap(), ih.unwrap()) == Some(eval_result(a, sig, t, env))
                }
        }),
{
    let motive = a[t@ as int]->NatElim_motive;
    let base = a[t@ as int]->NatElim_base;
    let step = a[t@ as int]->NatElim_step;
    let target = a[t@ as int]->NatElim_target;
    let f = choose|f: nat| #[trigger] eval_s(f, a, sig, t, env) is Some;
    assert(eval_s(f, a, sig, t, env) is Some);
    lemma_eval_result(a, sig, t, env, f);
    let g1 = (f - 1) as nat;
    assert(eval_s(g1, a, sig, target, env) is Some);
    lemma_eval_result(a, sig, target, env, g1);
    let vt = eval_s(g1, a, sig, target, env).unwrap();
    assert(eval_s(f, a, sig, t, env) == elim_nat_s(g1, a, sig, env, motive, base, step, vt));
    let g = (g1 - 1) as nat;
    assert(eval_s(g, a, sig, base, env) is Some);
    assert(eval_s(g, a, sig, step, env) is Some);
    lemma_eval_result(a, sig, base, env, g);
    lemma_eval_result(a, sig, step, env, g);
    if vt is VSucc {
        assert(elim_nat_s(g, a, sig, env, motive, base, step, *vt->VSucc_0) is Some);
    }
}

/// Pairs are definitionally equal exactly when their first components are and
/// then, from the state that comparison leaves, their second components are.
pub proof fn lemma_def_eq_pair(
    st: NbeState,
    sig: Map<Seq<char>, Entry>,
    env: Seq<ValueV>,
    x1: ValueV,
    x2: ValueV,
    y1: ValueV,
    y2: ValueV,
)
    requires
        decides_def_eq(
            st,
            sig,
            env,
            ValueV::VPair(Box::new(x1), Box::new(x2)),
            ValueV::VPair(Box::new(y1), Box::new(y2)),
        ),
    ensures
        decides_def_eq(st, sig, env, x1, y1),
        def_eq_result(st, sig, env, x1, y1).1 ==> decides_def_eq(def_eq_result(st, sig, env, x1, y1).0, sig, env, x2, y2),
        def_eq_result(
            st,
            sig,
            env,
            ValueV::VPair(Box::new(x1), Box::new(x2)),
            ValueV::VPair(Box::new(y1), Box::new(y2)),
        ) == (if def_eq_result(st, sig, env, x1, y1).1 {
            def_eq_result(def_eq_result(st, sig, env, x1, y1).0, sig, env, x2, y2)
        } else {
            def_eq_result(st, sig, env, x1, y1)
        }),
{
    let x = ValueV::VPair(Box::new(x1), Box::new(x2));
    let y = ValueV::VPair(Box::new(y1), Box::new(y2));
    let f = choose|f: nat| #[trigger] def_eq_s(f, st, sig, env, x, y) is Some;
    assert(def_eq_s(f, st, sig, env, x, y) is Some);
    lemma_def_eq_result(st, sig, env, x, y, f);
    let g = (f - 1) as nat;
    assert(def_eq_s(g, st, sig, env, x1, y1) is Some);
    lemma_def_eq_result(st, sig, env, x1, y1, g);
    if let Some((st1, true)) = def_eq_s(g, st, sig, env, x1, y1) {
        assert(def_eq_s(g, st1, sig, env, x2, y2) is Some);
        lemma_def_eq_result(st1, sig, env, x2, y2, g);
    }
}

/// Successors are definitionally equal exactly when their predecessors are.
pub proof fn lemma_def_eq_succ(st: NbeState, sig: Map<Seq<char>, Entry>, env: Seq<ValueV>, x: ValueV, y: ValueV)
    requires
        decides_def_eq(st, sig, env, ValueV::VSucc(Box::new(x)), ValueV::VSucc(Box::new(y))),
    ensures
        decides_def_eq(st, sig, env, x, y),
        def_eq_result(st, sig, env, ValueV::VSucc(Box::new(x)), ValueV::VSucc(Box::new(y))) == def_eq_result(
            st,
            sig,
            env,
            x,
            y,
        ),
{
    let sx = ValueV::VSucc(Box::new(x));
    let sy = ValueV::VSucc(Box::new(y));
    let f = choose|f: nat| #[trigger] def_eq_s(f, st, sig, env, sx, sy) is Some;
    assert(def_eq_s(f, st, sig, env, sx, sy) is Some);
    lemma_def_eq_result(st, sig, env, sx, sy, f);
    let g = (f - 1) as nat;
    assert(def_eq_s(g, st, sig, env, x, y) is Some);
    lemma_def_eq_result(st, sig, env, x, y, g);
}

/// Stuck applications are definitionally equal exactly when their heads are and
/// then, from the state that comparison leaves, their arguments are; stuck
/// projections of the same kind exactly when what they project is; variables
/// exactly when they are the same one.
pub proof fn lemma_def_eq_stuck(st: NbeState, sig: Map<Seq<char>, Entry>, env: Seq<ValueV>, x: NeutralV, y: NeutralV)
    requires
        decides_def_eq(st, sig, env, ValueV::VNeutral(x), ValueV::VNeutral(y)),
    ensures
        match (x, y) {
            (NeutralV::NVar(i), NeutralV::NVar(j)) => def_eq_result(
                st,
                sig,
                env,
                ValueV::VNeutral(x),
                ValueV::VNeutral(y),
            ) == (st, i == j),
            (NeutralV::NApp(h1, a1), NeutralV::NApp(h2, a2)) => {
                let hv = def_eq_result(st, sig, env, ValueV::VNeutral(*h1), ValueV::VNeutral(*h2));
                &&& decides_def_eq(st, sig, env, ValueV::VNeutral(*h1), ValueV::VNeutral(*h2))
                &&& hv.1 ==> decides_def_eq(hv.0, sig, env, *a1, *a2)
                &&& def_eq_result(st, sig, env, ValueV::VNeutral(x), ValueV::VNeutral(y)) == (if hv.1 {
                    def_eq_result(hv.0, sig, env, *a1, *a2)
                } else {
                    hv
                })
            },
            (NeutralV::NFst(p1), NeutralV::NFst(p2)) | (NeutralV::NSnd(p1), NeutralV::NSnd(p2)) => {
                &&& decides_def_eq(st, sig, env, ValueV::VNeutral(*p1), ValueV::VNeutral(*p2))
                &&& def_eq_result(st, sig, env, ValueV::VNeutral(x), ValueV::VNeutral(y)) == def_eq_result(
                    st,
                    sig,
                    env,
                    ValueV::VNeutral(*p1),
                    ValueV::VNeutral(*p2),
                )
            },
            _ => true,
        },
{
    let vx = ValueV::VNeutral(x);
    let vy = ValueV::VNeutral(y);
    let f = choose|f: nat| #[trigger] def_eq_s(f, st, sig, env, vx, vy) is Some;
    assert(def_eq_s(f, st, sig, env, vx, vy) is Some);
    lemma_def_eq_result(st, sig, env, vx, vy, f);
    let g1 = (f - 1) as nat;
    assert(def_eq_s(f, st, sig, env, vx, vy) == def_eq_neutral_s(g1, st, sig, env, x, y));
    let g = (g1 - 1) as nat;
    match (x, y) {
        (NeutralV::NApp(h1, a1), NeutralV::NApp(h2, a2)) => {
            assert(def_eq_neutral_s(g, st, sig, env, *h1, *h2) is Some);
            assert(def_eq_s(g1, st, sig, env, ValueV::VNeutral(*h1), ValueV::VNeutral(*h2))
                == def_eq_neutral_s(g, st, sig, env, *h1, *h2));
            lemma_def_eq_result(st, sig, env, ValueV::VNeutral(*h1), ValueV::VNeutral(*h2), g1);
            if let Some((st1, true)) = def_eq_neutral_s(g, st, sig, env, *h1, *h2) {
                assert(def_eq_s(g, st1, sig, env, *a1, *a2) is Some);
                lemma_def_eq_result(st1, sig, env, *a1, *a2, g);
            }
        },
        (NeutralV::NFst(p1), NeutralV::NFst(p2)) | (NeutralV::NSnd(p1), NeutralV::NSnd(p2)) => {
            assert(def_eq_neutral_s(g, st, sig, env, *p1, *p2) is Some);
            assert(def_eq_s(g1, st, sig, env, ValueV::VNeutral(*p1), ValueV::VNeutral(*p2))
                == def_eq_neutral_s(g, st, sig, env, *p1, *p2));
            lemma_def_eq_result(st, sig, env, ValueV::VNeutral(*p1), ValueV::VNeutral(*p2), g1);
        },
        _ => {},
    }
}

/// Normalizing a term that is not an annotation reads back its value at the
/// depth of the environment.
pub proof fn lemma_normalize_reads_back(a: Seq<TermData>, sig: Map<Seq<char>, Entry>, env: Seq<ValueV>, t: TermId)
    requires
        t@ < a.len(),
        !(a[t@ as int] is Ann),
        normalizes_term(a, sig, env, t),
    ensures
        evaluates(a, sig, t, env),
        quotes(a, sig, eval_result(a, sig, t, env), env.len() as usize),
        normalize_result(a, sig, env, t) == quote_result(a, sig, eval_result(a, sig, t, env), env.len() as usize),
{
    let f = choose|f: nat| #[trigger] normalize_s(f, a, sig, env, t) is Some;
    assert(normalize_s(f, a, sig, env, t) is Some);
    lemma_normalize_result(a, sig, env, t, f);
    let g = (f - 1) as nat;
    assert(eval_s(g, a, sig, t, env) is Some);
    lemma_eval_result(a, sig, t, env, g);
    let v = eval_s(g, a, sig, t, env).unwrap();
    assert(quote_s(g, a, sig, v, env.len() as usize) is Some);
    lemma_quote_result(a, sig, v, env.len() as usize, g);
}

/// How values read back: each constructor becomes the corresponding node, built
/// after the read-backs of its parts (left to right); a variable bound at level
/// `l` becomes de Bruijn index `level - 1 - l`; an opaque constant becomes the
/// constant annotated with its read-back type.
pub proof fn lemma_quote_shapes(a: Seq<TermData>, sig: Map<Seq<char>, Entry>, v: ValueV, level: usize)
    requires
        quotes(a, sig, v, level),
    ensures
        match v {
            ValueV::VType(l) => quote_result(a, sig, v, level) == alloc_s(a, TermData::Type(l)),
            ValueV::VNat => quote_result(a, sig, v, level) == alloc_s(a, TermData::Nat),
            ValueV::VZero => quote_result(a, sig, v, level) == alloc_s(a, TermData::Zero),
            ValueV::VSucc(n) => {
                let (a1, tn) = quote_result(a, sig, *n, level);
                &&& quotes(a, sig, *n, level)
                &&& quote_result(a, sig, v, level) == alloc_s(a1, TermData::Succ(tn))
            },
            ValueV::VPair(x, y) => {
                let (a1, tx) = quote_result(a, sig, *x, level);
                let (a2, ty) = quote_result(a1, sig, *y, level);
                &&& quotes(a, sig, *x, level)
                &&& quotes(a1, sig, *y, level)
                &&& quote_result(a, sig, v, level) == alloc_s(a2, TermData::Pair(tx, ty))
            },
            ValueV::VConst(name, ty) => {
                let (a1, t) = quote_result(a, sig, *ty, level);
                let (a2, k) = alloc_s(a1, TermData::Const(name));
                &&& quotes(a, sig, *ty, level)
                &&& quote_result(a, sig, v, level) == alloc_s(a2, TermData::Ann(k, t))
            },
            ValueV::VNeutral(NeutralV::NVar(l)) => {
                &&& l < level
                &&& quote_result(a, sig, v, level) == alloc_s(a, TermData::Var((level - 1 - l) as usize))
            },
            ValueV::VNeutral(NeutralV::NConst(name)) => quote_result(a, sig, v, level) == alloc_s(
                a,
                TermData::Const(name),
            ),
            ValueV::VNeutral(NeutralV::NApp(h, x)) => {
                let (a1, th) = quote_result(a, sig, ValueV::VNeutral(*h), level);
                let (a2, tx) = quote_result(a1, sig, *x, level);
                &&& quotes(a, sig, ValueV::VNeutral(*h), level)
                &&& quotes(a1, sig, *x, level)
                &&& quote_result(a, sig, v, level) == alloc_s(a2, TermData::App(th, tx))
            },
            ValueV::VNeutral(NeutralV::NFst(p)) => {
                let (a1, tp) = quote_result(a, sig, ValueV::VNeutral(*p), level);
                &&& quotes(a, sig, ValueV::VNeutral(*p), level)
                &&& quote_result(a, sig, v, level) == alloc_s(a1, TermData::Fst(tp))
            },
            ValueV::VNeutral(NeutralV::NSnd(p)) => {
                let (a1, tp) = quote_result(a, sig, ValueV::VNeutral(*p), level);
                &&& quotes(a, sig, ValueV::VNeutral(*p), level)
                &&& quote_result(a, sig, v, level) == alloc_s(a1, TermData::Snd(tp))
            },
            _ => true,
        },
{
    let f = choose|f: nat| #[trigger] quote_s(f, a, sig, v, level) is Some;
    assert(quote_s(f, a, sig, v, level) is Some);
    lemma_quote_result(a, sig, v, level, f);
    let g = (f - 1) as nat;
    match v {
        ValueV::VSucc(n) => {
            assert(quote_s(g, a, sig, *n, level) is Some);
            lemma_quote_result(a, sig, *n, level, g);
        },
        ValueV::VPair(x, y) => {
            assert(quote_s(g, a, sig, *x, level) is Some);
            lemma_quote_result(a, sig, *x, level, g);
            let (a1, _) = quote_s(g, a, sig, *x, level).unwrap();
            assert(quote_s(g, a1, sig, *y, level) is Some);
            lemma_quote_result(a1, sig, *y, level, g);
        },
        ValueV::VConst(_, ty) => {
            assert(quote_s(g, a, sig, *ty, level) is Some);
            lemma_quote_result(a, sig, *ty, level, g);
        },
        ValueV::VNeutral(n) => {
            assert(quote_s(f, a, sig, v, level) == quote_neutral_s(g, a, sig, n, level));
            let h = (g - 1) as nat;
            match n {
                NeutralV::NApp(hd, x) => {
                    assert(quote_neutral_s(h, a, sig, *hd, level) is Some);
                    assert(quote_s(g, a, sig, ValueV::VNeutral(*hd), level) == quote_neutral_s(h, a, sig, *hd, level));
                    lemma_quote_result(a, sig, ValueV::VNeutral(*hd), level, g);
                    let (a1, _) = quote_neutral_s(h, a, sig, *hd, level).unwrap();
                    assert(quote_s(h, a1, sig, *x, level) is Some);
                    lemma_quote_result(a1, sig, *x, level, h);
                },
                NeutralV::NFst(p) | NeutralV::NSnd(p) => {
                    assert(quote_neutral_s(h, a, sig, *p, level) is Some);
                    assert(quote_s(g, a, sig, ValueV::VNeutral(*p), level) == quote_neutral_s(h, a, sig, *p, level));
                    lemma_quote_result(a, sig, ValueV::VNeutral(*p), level, g);
                },
                _ => {},
            }
        },
        _ => {},
    }
}

/// Definitional equality unfolds a defined constant on either side (the left one
/// first) to the value of its body; universes are always equal and the two
/// levels are recorded as equal; two opaque constants are equal exactly when
/// they have the same name, and an opaque constant against anything else is
/// compared by its type.
pub proof fn lemma_def_eq_heads(st: NbeState, sig: Map<Seq<char>, Entry>, env: Seq<ValueV>, x: ValueV, y: ValueV)
    requires
        decides_def_eq(st, sig, env, x, y),
    ensures
        def_body(sig, x) is Some ==> {
            let u = eval_result(st.terms, sig, def_body(sig, x).unwrap(), env);
            &&& evaluates(st.terms, sig, def_body(sig, x).unwrap(), env)
            &&& decides_def_eq(st, sig, env, u, y)
            &&& def_eq_result(st, sig, env, x, y) == def_eq_result(st, sig, env, u, y)
        },
        def_body(sig, x) is None && def_body(sig, y) is Some ==> {
            let u = eval_result(st.terms, sig, def_body(sig, y).unwrap(), env);
            &&& evaluates(st.terms, sig, def_body(sig, y).unwrap(), env)
            &&& decides_def_eq(st, sig, env, x, u)
            &&& def_eq_result(st, sig, env, x, y) == def_eq_result(st, sig, env, x, u)
        },
        def_body(sig, x) is None && def_body(sig, y) is None ==> match (x, y) {
            (ValueV::VType(l1), ValueV::VType(l2)) => def_eq_result(st, sig, env, x, y) == (
                NbeState { levels: equate_s(st.levels, Level::Var(l1), Level::Var(l2)), ..st },
                true,
            ),
            (ValueV::VConst(n1, _), ValueV::VConst(n2, _)) => def_eq_result(st, sig, env, x, y) == (
                st,
                n1.0@ == n2.0@,
            ),
            (ValueV::VConst(_, ty1), _) => {
                &&& decides_def_eq(st, sig, env, *ty1, y)
                &&& def_eq_result(st, sig, env, x, y) == def_eq_result(st, sig, env, *ty1, y)
            },
            (_, ValueV::VConst(_, ty2)) => {
                &&& decides_def_eq(st, sig, env, x, *ty2)
                &&& def_eq_result(st, sig, env, x, y) == def_eq_result(st, sig, env, x, *ty2)
            },
            _ => true,
        },
{
    let f = choose|f: nat| #[trigger] def_eq_s(f, st, sig, env, x, y) is Some;
    assert(def_eq_s(f, st, sig, env, x, y) is Some);
    lemma_def_eq_result(st, sig, env, x, y, f);
    let g = (f - 1) as nat;
    if def_body(sig, x) is Some {
        let b = def_body(sig, x).unwrap();
        assert(eval_s(g, st.terms, sig, b, env) is Some);
        lemma_eval_result(st.terms, sig, b, env, g);
        let u = eval_s(g, st.terms, sig, b, env).unwrap();
        assert(def_eq_s(g, st, sig, env, u, y) is Some);
        lemma_def_eq_result(st, sig, env, u, y, g);
    } else if def_body(sig, y) is Some {
        let b = def_body(sig, y).unwrap();
        assert(eval_s(g, st.terms, sig, b, env) is Some);
        lemma_eval_result(st.terms, sig, b, env, g);
        let u = eval_s(g, st.terms, sig, b, env).unwrap();
        assert(def_eq_s(g, st, sig, env, x, u) is Some);
        lemma_def_eq_result(st, sig, env, x, u, g);
    } else {
        match (x, y) {
            (ValueV::VConst(_, _), ValueV::VConst(_, _)) => {},
            (ValueV::VConst(_, ty1), _) => {
                assert(def_eq_s(g, st, sig, env, *ty1, y) is Some);
                lemma_def_eq_result(st, sig, env, *ty1, y, g);
            },
            (_, ValueV::VConst(_, ty2)) => {
                assert(def_eq_s(g, st, sig, env, x, *ty2) is Some);
                lemma_def_eq_result(st, sig, env, x, *ty2, g);
            },
            _ => {},
        }
    }
}

/// How the term forms evaluate: a variable to its binding (innermost last), Π,
/// Σ and λ to closures over the environment (a λ carrying its parameter type's
/// value), pairs and successors componentwise, an annotation to the value of
/// the annotated term, projections of a pair to its components (of anything
/// else to a stuck projection), and an application of a λ-closure to its body's
/// value under the argument (of anything else to a stuck application).
pub proof fn lemma_eval_forms(a: Seq<TermData>, sig: Map<Seq<char>, Entry>, t: TermId, env: Seq<ValueV>)
    requires
        t@ < a.len(),
        evaluates(a, sig, t, env),
    ensures
        match a[t@ as int] {
            TermData::Var(i) => i < env.len() && eval_result(a, sig, t, env) == env[env.len() - 1 - i],
            TermData::Type(l) => eval_result(a, sig, t, env) == ValueV::VType(l),
            TermData::Nat => eval_result(a, sig, t, env) == ValueV::VNat,
            TermData::Zero => eval_result(a, sig, t, env) == ValueV::VZero,
            TermData::Pi(_, _) => eval_result(a, sig, t, env) == ValueV::VPi(t, env),
            TermData::Sigma(_, _) => eval_result(a, sig, t, env) == ValueV::VSigma(t, env),
            TermData::Lam(ty, b) => {
                &&& evaluates(a, sig, ty, env)
                &&& eval_result(a, sig, t, env) == ValueV::VLam(Box::new(eval_result(a, sig, ty, env)), b, env)
            },
            TermData::Pair(x, y) => {
                &&& evaluates(a, sig, x, env)
                &&& evaluates(a, sig, y, env)
                &&& eval_result(a, sig, t, env) == ValueV::VPair(
                    Box::new(eval_result(a, sig, x, env)),
                    Box::new(eval_result(a, sig, y, env)),
                )
            },
            TermData::Succ(n) => {
                &&& evaluates(a, sig, n, env)
                &&& eval_result(a, sig, t, env) == ValueV::VSucc(Box::new(eval_result(a, sig, n, env)))
            },
            TermData::Ann(x, _) => {
                &&& evaluates(a, sig, x, env)
                &&& eval_result(a, sig, t, env) == eval_result(a, sig, x, env)
            },
            TermData::Fst(p) => {
                let vp = eval_result(a, sig, p, env);
                &&& evaluates(a, sig, p, env)
                &&& eval_result(a, sig, t, env) == match vp {
                    ValueV::VPair(x, _) => *x,
                    _ => ValueV::VNeutral(NeutralV::NFst(Box::new(neutral_of(vp)))),
                }
            },
            TermData::Snd(p) => {
                let vp = eval_result(a, sig, p, env);
                &&& evaluates(a, sig, p, env)
                &&& eval_result(a, sig, t, env) == match vp {
                    ValueV::VPair(_, y) => *y,
                    _ => ValueV::VNeutral(NeutralV::NSnd(Box::new(neutral_of(vp)))),
                }
            },
            TermData::App(fx, x) => {
                let vf = eval_result(a, sig, fx, env);
                let vx = eval_result(a, sig, x, env);
                &&& evaluates(a, sig, fx, env)
                &&& evaluates(a, sig, x, env)
                &&& match vf {
                    ValueV::VLam(_, b, e) => {
                        &&& evaluates(a, sig, b, e.push(vx))
                        &&& eval_result(a, sig, t, env) == eval_result(a, sig, b, e.push(vx))
                    },
                    _ => eval_result(a, sig, t, env) == ValueV::VNeutral(
                        NeutralV::NApp(Box::new(neutral_of(vf)), Box::new(vx)),
                    ),
                }
            },
            _ => true,
        },
{
    let f = choose|f: nat| #[trigger] eval_s(f, a, sig, t, env) is Some;
    assert(eval_s(f, a, sig, t, env) is Some);
    lemma_eval_result(a, sig, t, env, f);
    let g = (f - 1) as nat;
    match a[t@ as int] {
        TermData::Lam(ty, _) => {
            assert(eval_s(g, a, sig, ty, env) is Some);
            lemma_eval_result(a, sig, ty, env, g);
        },
        TermData::Pair(x, y) => {
            assert(eval_s(g, a, sig, x, env) is Some);
            assert(eval_s(g, a, sig, y, env) is Some);
            lemma_eval_result(a, sig, x, env, g);
            lemma_eval_result(a, sig, y, env, g);
        },
        TermData::Succ(n) => {
            assert(eval_s(g, a, sig, n, env) is Some);
            lemma_eval_result(a, sig, n, env, g);
        },
        TermData::Ann(x, _) => {
            assert(eval_s(g, a, sig, x, env) is Some);
            lemma_eval_result(a, sig, x, env, g);
        },
        TermData::Fst(p) | TermData::Snd(p) => {
            assert(eval_s(g, a, sig, p, env) is Some);
            lemma_eval_result(a, sig, p, env, g);
        },
        TermData::App(fx, x) => {
            assert(eval_s(g, a, sig, fx, env) is Some);
            assert(eval_s(g, a, sig, x, env) is Some);
            lemma_eval_result(a, sig, fx, env, g);
            lemma_eval_result(a, sig, x, env, g);
            let vf = eval_s(g, a, sig, fx, env).unwrap();
            let vx = eval_s(g, a, sig, x, env).unwrap();
            assert(eval_s(f, a, sig, t, env) == apply_s(g, a, sig, vf, vx));
            if let ValueV::VLam(_, b, e) = vf {
                let h = (g - 1) as nat;
                assert(eval_s(h, a, sig, b, e.push(vx)) is Some);
                lemma_eval_result(a, sig, b, e.push(vx), h);
            }
        },
        _ => {},
    }
}

/// Closures are compared under a fresh variable: two Π-types (or Σ-types) are
/// definitionally equal exactly when their domains are and then, from the state
/// that comparison leaves, their codomains opened with the variable bound at
/// the depth of `env` are; two λ-closures exactly when their bodies, opened
/// with that variable, are.
pub proof fn lemma_def_eq_closures(st: NbeState, sig: Map<Seq<char>, Entry>, env: Seq<ValueV>, x: ValueV, y: ValueV)
    requires
        decides_def_eq(st, sig, env, x, y),
    ensures
        ({
            let z = fresh_var(env.len() as usize);
            match (x, y) {
                (ValueV::VLam(_, b1, e1), ValueV::VLam(_, b2, e2)) => {
                    let v1 = eval_result(st.terms, sig, b1, e1.push(z));
                    let v2 = eval_result(st.terms, sig, b2, e2.push(z));
                    &&& evaluates(st.terms, sig, b1, e1.push(z))
                    &&& evaluates(st.terms, sig, b2, e2.push(z))
                    &&& decides_def_eq(st, sig, env, v1, v2)
                    &&& def_eq_result(st, sig, env, x, y) == def_eq_result(st, sig, env, v1, v2)
                },
                (ValueV::VPi(id1, e1), ValueV::VPi(id2, e2)) | (ValueV::VSigma(id1, e1), ValueV::VSigma(id2, e2)) => {
                    let is_pi = x is VPi;
                    match (binder_parts(st.terms, id1, is_pi), binder_parts(st.terms, id2, is_pi)) {
                        (Some((d1, c1)), Some((d2, c2))) => {
                            let dv1 = eval_result(st.terms, sig, d1, e1);
                            let dv2 = eval_result(st.terms, sig, d2, e2);
                            let (st1, same) = def_eq_result(st, sig, env, dv1, dv2);
                            let cv1 = eval_result(st1.terms, sig, c1, e1.push(z));
                            let cv2 = eval_result(st1.terms, sig, c2, e2.push(z));
                            &&& id1@ < st.terms.len()
                            &&& id2@ < st.terms.len()
                            &&& decides_def_eq(st, sig, env, dv1, dv2)
                            &&& same ==> {
                                &&& evaluates(st1.terms, sig, c1, e1.push(z))
                                &&& evaluates(st1.terms, sig, c2, e2.push(z))
                                &&& decides_def_eq(st1, sig, env, cv1, cv2)
                                &&& def_eq_result(st, sig, env, x, y) == def_eq_result(st1, sig, env, cv1, cv2)
                            }
                            &&& !same ==> def_eq_result(st, sig, env, x, y) == (st1, false)
                        },
                        _ => def_eq_result(st, sig, env, x, y) == (st, false),
                    }
                },
                _ => true,
            }
        }),
{
    let z = fresh_var(env.len() as usize);
    let f = choose|f: nat| #[trigger] def_eq_s(f, st, sig, env, x, y) is Some;
    assert(def_eq_s(f, st, sig, env, x, y) is Some);
    lemma_def_eq_result(st, sig, env, x, y, f);
    let g1 = (f - 1) as nat;
    let g = (g1 - 1) as nat;
    match (x, y) {
        (ValueV::VLam(_, b1, e1), ValueV::VLam(_, b2, e2)) => {
            assert(def_eq_s(f, st, sig, env, x, y) == def_eq_lam_s(g1, st, sig, env, b1, e1, b2, e2));
            assert(eval_s(g, st.terms, sig, b1, e1.push(z)) is Some);
            assert(eval_s(g, st.terms, sig, b2, e2.push(z)) is Some);
            lemma_eval_result(st.terms, sig, b1, e1.push(z), g);
            lemma_eval_result(st.terms, sig, b2, e2.push(z), g);
            let v1 = eval_s(g, st.terms, sig, b1, e1.push(z)).unwrap();
            let v2 = eval_s(g, st.terms, sig, b2, e2.push(z)).unwrap();
            lemma_def_eq_result(st, sig, env, v1, v2, g);
        },
        (ValueV::VPi(id1, e1), ValueV::VPi(id2, e2)) | (ValueV::VSigma(id1, e1), ValueV::VSigma(id2, e2)) => {
            let is_pi = x is VPi;
            assert(def_eq_s(f, st, sig, env, x, y) == def_eq_binder_s(g1, st, sig, env, id1, e1, id2, e2, is_pi));
            if let (Some((d1, c1)), Some((d2, c2))) = (binder_parts(st.terms, id1, is_pi), binder_parts(st.terms, id2, is_pi)) {
                assert(eval_s(g, st.terms, sig, d1, e1) is Some);
                assert(eval_s(g, st.terms, sig, d2, e2) is Some);
                lemma_eval_result(st.terms, sig, d1, e1, g);
                lemma_eval_result(st.terms, sig, d2, e2, g);
                let dv1 = eval_s(g, st.terms, sig, d1, e1).unwrap();
                let dv2 = eval_s(g, st.terms, sig, d2, e2).unwrap();
                lemma_def_eq_result(st, sig, env, dv1, dv2, g);
                if let Some((st1, true)) = def_eq_s(g, st, sig, env, dv1, dv2) {
                    assert(eval_s(g, st1.terms, sig, c1, e1.push(z)) is Some);
                    assert(eval_s(g, st1.terms, sig, c2, e2.push(z)) is Some);
                    lemma_eval_result(st1.terms, sig, c1, e1.push(z), g);
                    lemma_eval_result(st1.terms, sig, c2, e2.push(z), g);
                    let cv1 = eval_s(g, st1.terms, sig, c1, e1.push(z)).unwrap();
                    let cv2 = eval_s(g, st1.terms, sig, c2, e2.push(z)).unwrap();
                    lemma_def_eq_result(st1, sig, env, cv1, cv2, g);
                }
            }
        },
        _ => {},
    }
}

} // verus!

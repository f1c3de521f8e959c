//! The meaning of bidirectional type checking, as functions of the checker's
//! state (the arena and the universe constraints), the signature, the typing
//! context and the environment. As for evaluation, a step budget `fuel` is
//! threaded through and `None` stands for a computation that does not finish or
//! goes wrong; once a budget suffices, every larger one gives the same outcome
//! (`lemma_check_fuel`, `lemma_infer_fuel`).
use crate::arena::alloc_s;
use crate::error::{TyErrorV, debug_term_data, debug_value, term_text};
use crate::level::{Level, LevelVar, fresh_s, push_leq};
use crate::nbe::{
    NbeState, binder_parts, def_eq_s, eval_s, fresh_var, grows, lemma_def_eq_fuel, lemma_def_eq_grows, lemma_eval_fuel,
    lemma_grows_trans, lemma_quote_fuel, lemma_quote_grows, quote_s,
};
use crate::signature::Entry;
use crate::term::{Name, TermData, TermId, term_id};
use crate::value::ValueV;
use vstd::prelude::*;

verus! {

/// A type mismatch reported at `term`.
pub open spec fn mismatch(a: Seq<TermData>, term: TermId, expected: Seq<char>, found: Seq<char>) -> TyErrorV {
    TyErrorV::TypeMismatch { term: term_text(a, term), expected, found }
}

/// Takes a fresh universe variable; `None` when the counter is exhausted.
pub open spec fn take_fresh(st: NbeState) -> Option<(NbeState, LevelVar)> {
    if st.levels.fresh == usize::MAX {
        None
    } else {
        Some((NbeState { levels: fresh_s(st.levels), ..st }, LevelVar(st.levels.fresh)))
    }
}

/// Stores a node in the state's arena.
pub open spec fn store(st: NbeState, d: TermData) -> (NbeState, TermId) {
    (NbeState { terms: st.terms.push(d), ..st }, term_id(st.terms.len() as usize))
}

/// Records the universe constraint `sub <= sup`.
pub open spec fn constrain(st: NbeState, sub: Level, sup: Level) -> NbeState {
    NbeState { levels: push_leq(st.levels, sub, sup), ..st }
}

/// The components of the Π-type (`is_pi`) or Σ-type node at `id`: `None` when
/// `id` is outside the arena, an invalid-elimination error when the node is of
/// another kind.
pub open spec fn parts_s(a: Seq<TermData>, id: TermId, is_pi: bool) -> Option<
    Result<(TermId, TermId), TyErrorV>,
> {
    if id@ >= a.len() {
        None
    } else {
        match binder_parts(a, id, is_pi) {
            Some(p) => Some(Ok(p)),
            None => Some(Err(TyErrorV::InvalidElim { term: term_text(a, id) })),
        }
    }
}

/// Checking `term` against the type `ty`.
pub open spec fn check_s(
    fuel: nat,
    st: NbeState,
    sig: Map<Seq<char>, Entry>,
    ctx: Seq<ValueV>,
    env: Seq<ValueV>,
    term: TermId,
    ty: ValueV,
) -> Option<(NbeState, Result<(), TyErrorV>)>
    decreases fuel,
{
    if fuel == 0 || term@ >= st.terms.len() {
        None
    } else {
        let f = (fuel - 1) as nat;
        match st.terms[term@ as int] {
            TermData::Ann(t, ty_term) => match eval_s(f, st.terms, sig, ty_term, env) {
                Some(expected) => match def_eq_s(f, st, sig, env, expected, ty) {
                    Some((st1, true)) => check_s(f, st1, sig, ctx, env, t, ty),
                    Some((st1, false)) => Some(
                        (
                            st1,
                            Err(mismatch(st1.terms, term, debug_value(ty), debug_value(expected))),
                        ),
                    ),
                    None => None,
                },
                None => None,
            },
            TermData::Lam(param_ty, body) => check_lam_s(
                f,
                st,
                sig,
                ctx,
                env,
                term,
                param_ty,
                body,
                ty,
            ),
            TermData::Pair(x, y) => check_pair_s(f, st, sig, ctx, env, term, x, y, ty),
            TermData::Zero => match def_eq_s(f, st, sig, env, ty, ValueV::VNat) {
                Some((st1, true)) => Some((st1, Ok(()))),
                Some((st1, false)) => Some(
                    (st1, Err(mismatch(st1.terms, term, debug_value(ty), "Nat"@))),
                ),
                None => None,
            },
            TermData::Succ(n) => match def_eq_s(f, st, sig, env, ty, ValueV::VNat) {
                Some((st1, true)) => check_s(f, st1, sig, ctx, env, n, ValueV::VNat),
                Some((st1, false)) => Some(
                    (st1, Err(mismatch(st1.terms, term, debug_value(ty), "Nat"@))),
                ),
                None => None,
            },
            TermData::NatElim { motive, base, step, target } => check_nat_elim_s(
                f,
                st,
                sig,
                ctx,
                env,
                term,
                ty,
                motive,
                base,
                step,
                target,
            ),
            TermData::SigmaElim { motive, elim, target } => check_sigma_elim_s(
                f,
                st,
                sig,
                ctx,
                env,
                term,
                ty,
                motive,
                elim,
                target,
            ),
            _ => match infer_s(f, st, sig, ctx, env, term) {
                Some((st1, Ok(inferred))) => match def_eq_s(f, st1, sig, env, inferred, ty) {
                    Some((st2, true)) => Some((st2, Ok(()))),
                    Some((st2, false)) => Some(
                        (
                            st2,
                            Err(mismatch(st2.terms, term, debug_value(ty), debug_value(inferred))),
                        ),
                    ),
                    None => None,
                },
                Some((st1, Err(e))) => Some((st1, Err(e))),
                None => None,
            },
        }
    }
}

/// Checking the λ-term `term` (parameter annotation `param_ty`, body `body`)
/// against `ty`, which must be a Π-type whose domain the annotation equals.
pub open spec fn check_lam_s(
    fuel: nat,
    st: NbeState,
    sig: Map<Seq<char>, Entry>,
    ctx: Seq<ValueV>,
    env: Seq<ValueV>,
    term: TermId,
    param_ty: TermId,
    body: TermId,
    ty: ValueV,
) -> Option<(NbeState, Result<(), TyErrorV>)>
    decreases fuel,
{
    if fuel == 0 {
        None
    } else {
        let f = (fuel - 1) as nat;
        match ty {
            ValueV::VPi(pi_id, pi_env) => match parts_s(st.terms, pi_id, true) {
                None => None,
                Some(Err(e)) => Some((st, Err(e))),
                Some(Ok((dom, cod))) => match (
                    eval_s(f, st.terms, sig, dom, pi_env),
                    eval_s(f, st.terms, sig, param_ty, env),
                ) {
                    (Some(dom_val), Some(param_val)) => match def_eq_s(
                        f,
                        st,
                        sig,
                        env,
                        param_val,
                        dom_val,
                    ) {
                        Some((st1, true)) => match eval_s(
                            f,
                            st1.terms,
                            sig,
                            cod,
                            pi_env.push(fresh_var(pi_env.len() as usize)),
                        ) {
                            Some(cod_val) => check_s(
                                f,
                                st1,
                                sig,
                                ctx.push(dom_val),
                                env.push(fresh_var(env.len() as usize)),
                                body,
                                cod_val,
                            ),
                            None => None,
                        },
                        Some((st1, false)) => Some(
                            (
                                st1,
                                Err(
                                    mismatch(
                                        st1.terms,
                                        term,
                                        debug_value(dom_val),
                                        debug_term_data(st1.terms[param_ty@ as int]),
                                    ),
                                ),
                            ),
                        ),
                        None => None,
                    },
                    _ => None,
                },
            },
            _ => Some((st, Err(mismatch(st.terms, term, "Π-type"@, debug_value(ty))))),
        }
    }
}

/// Checking the pair `term` of `x` and `y` against `ty`, which must be a
/// Σ-type: `x` against its first component, `y` against the second component
/// instantiated with the value of `x`.
pub open spec fn check_pair_s(
    fuel: nat,
    st: NbeState,
    sig: Map<Seq<char>, Entry>,
    ctx: Seq<ValueV>,
    env: Seq<ValueV>,
    term: TermId,
    x: TermId,
    y: TermId,
    ty: ValueV,
) -> Option<(NbeState, Result<(), TyErrorV>)>
    decreases fuel,
{
    if fuel == 0 {
        None
    } else {
        let f = (fuel - 1) as nat;
        match ty {
            ValueV::VSigma(sig_id, env_sig) => match parts_s(st.terms, sig_id, false) {
                None => None,
                Some(Err(e)) => Some((st, Err(e))),
                Some(Ok((a, b))) => match eval_s(f, st.terms, sig, a, env_sig) {
                    Some(fst_ty) => match check_s(f, st, sig, ctx, env, x, fst_ty) {
                        Some((st1, Ok(()))) => match eval_s(f, st1.terms, sig, x, env) {
                            Some(fst_val) => match eval_s(
                                f,
                                st1.terms,
                                sig,
                                b,
                                env_sig.push(fst_val),
                            ) {
                                Some(snd_ty) => check_s(f, st1, sig, ctx, env, y, snd_ty),
                                None => None,
                            },
                            None => None,
                        },
                        other => other,
                    },
                    None => None,
                },
            },
            _ => Some((st, Err(mismatch(st.terms, term, "Σ-type"@, debug_value(ty))))),
        }
    }
}

/// Inferring the type of `term`.
pub open spec fn infer_s(
    fuel: nat,
    st: NbeState,
    sig: Map<Seq<char>, Entry>,
    ctx: Seq<ValueV>,
    env: Seq<ValueV>,
    term: TermId,
) -> Option<(NbeState, Result<ValueV, TyErrorV>)>
    decreases fuel,
{
    if fuel == 0 || term@ >= st.terms.len() {
        None
    } else {
        let f = (fuel - 1) as nat;
        let cannot = TyErrorV::CannotInfer { term: term_text(st.terms, term) };
        match st.terms[term@ as int] {
            TermData::Var(i) => if i < ctx.len() {
                Some((st, Ok(ctx[ctx.len() - 1 - i])))
            } else {
                None
            },
            TermData::Type(l) => match take_fresh(st) {
                Some((st1, lift)) => Some(
                    (
                        constrain(
                            st1,
                            Level::Var(l),
                            Level::Succ(Box::new(Level::Var(lift))),
                        ),
                        Ok(ValueV::VType(lift)),
                    ),
                ),
                None => None,
            },
            TermData::Pi(a, b) => infer_binder_s(f, st, sig, ctx, env, term, a, b, true),
            TermData::Lam(param_ty, body) => infer_lam_s(f, st, sig, ctx, env, param_ty, body),
            TermData::App(fx, x) => match infer_s(f, st, sig, ctx, env, fx) {
                Some((st1, Ok(fun_ty))) => app_infer_s(f, st1, sig, ctx, env, term, x, fun_ty),
                Some((st1, Err(e))) => Some((st1, Err(e))),
                None => None,
            },
            TermData::Sigma(a, b) => infer_binder_s(f, st, sig, ctx, env, term, a, b, false),
            TermData::Pair(_, _) => Some((st, Err(cannot))),
            TermData::Fst(p) => infer_proj_s(f, st, sig, ctx, env, term, p, true),
            TermData::Snd(p) => infer_proj_s(f, st, sig, ctx, env, term, p, false),
            TermData::Nat => match take_fresh(st) {
                Some((st1, l)) => Some((st1, Ok(ValueV::VType(l)))),
                None => None,
            },
            TermData::Zero => Some((st, Ok(ValueV::VNat))),
            TermData::Succ(n) => match check_s(f, st, sig, ctx, env, n, ValueV::VNat) {
                Some((st1, Ok(()))) => Some((st1, Ok(ValueV::VNat))),
                Some((st1, Err(e))) => Some((st1, Err(e))),
                None => None,
            },
            TermData::NatElim { .. } | TermData::SigmaElim { .. } => Some((st, Err(cannot))),
            TermData::Ann(t, ty) => match eval_s(f, st.terms, sig, ty, env) {
                Some(expected) => match check_s(f, st, sig, ctx, env, t, expected) {
                    Some((st1, Ok(()))) => Some((st1, Ok(expected))),
                    Some((st1, Err(e))) => Some((st1, Err(e))),
                    None => None,
                },
                None => None,
            },
            TermData::Const(name) => lookup_const_s(f, st, sig, term, name),
        }
    }
}

/// Inferring the type of a Π-type (`is_pi`) or Σ-type `term` with components
/// `a` and `b`. For Π: when `a` is a type in universe `l_dom` and `b` (under a
/// variable of type `a`) a type in `l_cod`, the result is a fresh universe
/// above `l_cod`; when `a`'s type is not a universe, `b` is still inferred and
/// the result is the Π-type closure of `a` and `b`. For Σ: both components must
/// be types, in universes `l1 <= l2`, and the result is universe `l2`.
pub open spec fn infer_binder_s(
    fuel: nat,
    st: NbeState,
    sig: Map<Seq<char>, Entry>,
    ctx: Seq<ValueV>,
    env: Seq<ValueV>,
    term: TermId,
    a: TermId,
    b: TermId,
    is_pi: bool,
) -> Option<(NbeState, Result<ValueV, TyErrorV>)>
    decreases fuel,
{
    if fuel == 0 {
        None
    } else {
        let f = (fuel - 1) as nat;
        let new_env = env.push(fresh_var(env.len() as usize));
        match infer_s(f, st, sig, ctx, env, a) {
            None => None,
            Some((st1, Err(e))) => Some((st1, Err(e))),
            Some((st1, Ok(a_ty))) => match a_ty {
                ValueV::VType(l1) => match eval_s(f, st1.terms, sig, a, env) {
                    None => None,
                    Some(dom) => match infer_s(f, st1, sig, ctx.push(dom), new_env, b) {
                    None => None,
                    Some((st2, Err(e))) => Some((st2, Err(e))),
                    Some((st2, Ok(b_ty))) => match b_ty {
                        ValueV::VType(l2) => if is_pi {
                            match take_fresh(st2) {
                                Some((st3, lvl)) => Some(
                                    (
                                        constrain(st3, Level::Var(l2), Level::Var(lvl)),
                                        Ok(ValueV::VType(lvl)),
                                    ),
                                ),
                                None => None,
                            }
                        } else {
                            Some(
                                (
                                    constrain(st2, Level::Var(l1), Level::Var(l2)),
                                    Ok(ValueV::VType(l2)),
                                ),
                            )
                        },
                        _ => Some(
                            (
                                st2,
                                Err(mismatch(st2.terms, term, "universe"@, debug_value(b_ty))),
                            ),
                        ),
                    },
                    },
                },
                _ => if is_pi {
                    match infer_s(f, st1, sig, ctx.push(a_ty), new_env, b) {
                        None => None,
                        Some((st2, Err(e))) => Some((st2, Err(e))),
                        Some((st2, Ok(_))) => {
                            let (st3, pi_id) = store(st2, TermData::Pi(a, b));
                            Some((st3, Ok(ValueV::VPi(pi_id, env))))
                        },
                    }
                } else {
                    Some((st1, Err(mismatch(st1.terms, term, "universe"@, "Σ-type"@))))
                },
            },
        }
    }
}

/// Inferring the type of a λ-term: the body's type is inferred under a variable
/// of the annotated type, read back, and closed into a Π-type.
pub open spec fn infer_lam_s(
    fuel: nat,
    st: NbeState,
    sig: Map<Seq<char>, Entry>,
    ctx: Seq<ValueV>,
    env: Seq<ValueV>,
    param_ty: TermId,
    body: TermId,
) -> Option<(NbeState, Result<ValueV, TyErrorV>)>
    decreases fuel,
{
    if fuel == 0 {
        None
    } else {
        let f = (fuel - 1) as nat;
        let new_env = env.push(fresh_var(env.len() as usize));
        match eval_s(f, st.terms, sig, param_ty, env) {
            None => None,
            Some(dom) => match infer_s(f, st, sig, ctx.push(dom), new_env, body) {
                None => None,
                Some((st1, Err(e))) => Some((st1, Err(e))),
                Some((st1, Ok(cod_val))) => match quote_s(
                    f,
                    st1.terms,
                    sig,
                    cod_val,
                    new_env.len() as usize,
                ) {
                    None => None,
                    Some((terms2, cod_term)) => {
                        let (st3, pi_id) = store(
                            NbeState { terms: terms2, ..st1 },
                            TermData::Pi(param_ty, cod_term),
                        );
                        Some((st3, Ok(ValueV::VPi(pi_id, env))))
                    },
                },
            },
        }
    }
}

/// Inferring the type of a projection (`is_fst` for the first) out of `p`, whose
/// type must be a Σ-type. The second projection's type needs the first
/// component of `p`'s value, so `p` must evaluate to a pair.
pub open spec fn infer_proj_s(
    fuel: nat,
    st: NbeState,
    sig: Map<Seq<char>, Entry>,
    ctx: Seq<ValueV>,
    env: Seq<ValueV>,
    term: TermId,
    p: TermId,
    is_fst: bool,
) -> Option<(NbeState, Result<ValueV, TyErrorV>)>
    decreases fuel,
{
    if fuel == 0 {
        None
    } else {
        let f = (fuel - 1) as nat;
        match infer_s(f, st, sig, ctx, env, p) {
            None => None,
            Some((st1, Err(e))) => Some((st1, Err(e))),
            Some((st1, Ok(pair_ty))) => match pair_ty {
                ValueV::VSigma(sig_id, env_sig) => match parts_s(st1.terms, sig_id, false) {
                    None => None,
                    Some(Err(e)) => Some((st1, Err(e))),
                    Some(Ok((a, b))) => if is_fst {
                        match eval_s(f, st1.terms, sig, a, env_sig) {
                            Some(v) => Some((st1, Ok(v))),
                            None => None,
                        }
                    } else {
                        match eval_s(f, st1.terms, sig, p, env) {
                            Some(ValueV::VPair(x, _)) => match eval_s(
                                f,
                                st1.terms,
                                sig,
                                b,
                                env_sig.push(*x),
                            ) {
                                Some(v) => Some((st1, Ok(v))),
                                None => None,
                            },
                            Some(_) => Some(
                                (
                                    st1,
                                    Err(TyErrorV::CannotInfer { term: term_text(st1.terms, term) }),
                                ),
                            ),
                            None => None,
                        }
                    },
                },
                _ => Some(
                    (st1, Err(mismatch(st1.terms, term, "Σ-type"@, debug_value(pair_ty)))),
                ),
            },
        }
    }
}

/// The Π-type closure of a function type: the type itself, or the type carried
/// by an opaque constant when that is a Π-type.
pub open spec fn pi_of(fun_ty: ValueV) -> Option<(TermId, Seq<ValueV>)> {
    match fun_ty {
        ValueV::VPi(id, e) => Some((id, e)),
        ValueV::VConst(_, ty) => match *ty {
            ValueV::VPi(id, e) => Some((id, e)),
            _ => None,
        },
        _ => None,
    }
}

/// Inferring the type of the application `term` of a function of type `fun_ty`
/// to `x`: `x` is checked against the domain, and the codomain is instantiated
/// with the value of `x`.
pub open spec fn app_infer_s(
    fuel: nat,
    st: NbeState,
    sig: Map<Seq<char>, Entry>,
    ctx: Seq<ValueV>,
    env: Seq<ValueV>,
    term: TermId,
    x: TermId,
    fun_ty: ValueV,
) -> Option<(NbeState, Result<ValueV, TyErrorV>)>
    decreases fuel,
{
    if fuel == 0 {
        None
    } else {
        let f = (fuel - 1) as nat;
        match pi_of(fun_ty) {
            None => Some((st, Err(mismatch(st.terms, term, "Π-type"@, debug_value(fun_ty))))),
            Some((pi_id, pi_env)) => match parts_s(st.terms, pi_id, true) {
                None => None,
                Some(Err(e)) => Some((st, Err(e))),
                Some(Ok((dom, cod))) => match (
                    eval_s(f, st.terms, sig, dom, pi_env),
                    eval_s(f, st.terms, sig, x, env),
                ) {
                    (Some(dom_val), Some(arg_val)) => match check_s(
                        f,
                        st,
                        sig,
                        ctx,
                        env,
                        x,
                        dom_val,
                    ) {
                        None => None,
                        Some((st1, Err(e))) => Some((st1, Err(e))),
                        Some((st1, Ok(()))) => match eval_s(
                            f,
                            st1.terms,
                            sig,
                            cod,
                            pi_env.push(arg_val),
                        ) {
                            Some(v) => Some((st1, Ok(v))),
                            None => None,
                        },
                    },
                    _ => None,
                },
            },
        }
    }
}

/// The type of a constant: the value of its declared type (closed), wrapped as an
/// opaque constant for an axiom; an error when the name is unknown.
pub open spec fn lookup_const_s(
    fuel: nat,
    st: NbeState,
    sig: Map<Seq<char>, Entry>,
    term: TermId,
    name: Name,
) -> Option<(NbeState, Result<ValueV, TyErrorV>)>
    decreases fuel,
{
    if fuel == 0 {
        None
    } else {
        let f = (fuel - 1) as nat;
        if !sig.contains_key(name.0@) {
            Some(
                (
                    st,
                    Err(TyErrorV::UnknownConst { term: term_text(st.terms, term), name: name.0@ }),
                ),
            )
        } else {
            match sig[name.0@] {
                Entry::Def { ty, .. } => match eval_s(f, st.terms, sig, ty, Seq::empty()) {
                    Some(vty) => Some((st, Ok(vty))),
                    None => None,
                },
                Entry::Axiom { ty } => match eval_s(f, st.terms, sig, ty, Seq::empty()) {
                    Some(vty) => Some((st, Ok(ValueV::VConst(name, Box::new(vty))))),
                    None => None,
                },
            }
        }
    }
}

/// Checking the Σ-eliminator `term` (motive, eliminator, target) against `ty`:
/// the target's type must be a Σ-type `S`; the motive is checked against
/// `S -> Type`, the eliminator against `Π a. Π b. motive (a, b)`, and
/// `motive target` must equal `ty`.
pub open spec fn check_sigma_elim_s(
    fuel: nat,
    st: NbeState,
    sig: Map<Seq<char>, Entry>,
    ctx: Seq<ValueV>,
    env: Seq<ValueV>,
    term: TermId,
    ty: ValueV,
    motive: TermId,
    elim: TermId,
    target: TermId,
) -> Option<(NbeState, Result<(), TyErrorV>)>
    decreases fuel,
{
    if fuel == 0 {
        None
    } else {
        let f = (fuel - 1) as nat;
        match infer_s(f, st, sig, ctx, env, target) {
            None => None,
            Some((st1, Err(e))) => Some((st1, Err(e))),
            Some((st1, Ok(target_ty))) => match target_ty {
                ValueV::VSigma(sig_id, _) => match parts_s(st1.terms, sig_id, false) {
                    None => None,
                    Some(Err(e)) => Some((st1, Err(e))),
                    Some(Ok((a_ty, b_ty))) => match take_fresh(st1) {
                        None => None,
                        Some((st2, lvl)) => {
                            let (st3, u) = store(st2, TermData::Type(lvl));
                            let (st4, motive_pi) = store(st3, TermData::Pi(sig_id, u));
                            match check_s(
                                f,
                                st4,
                                sig,
                                ctx,
                                env,
                                motive,
                                ValueV::VPi(motive_pi, env),
                            ) {
                                None => None,
                                Some((st5, Err(e))) => Some((st5, Err(e))),
                                Some((st5, Ok(()))) => {
                                    let (s6, v1) = store(st5, TermData::Var(1));
                                    let (s7, v0) = store(s6, TermData::Var(0));
                                    let (s8, pr) = store(s7, TermData::Pair(v1, v0));
                                    let (s9, ap) = store(s8, TermData::App(motive, pr));
                                    let (s10, inner) = store(s9, TermData::Pi(b_ty, ap));
                                    let (s11, elim_ty) = store(s10, TermData::Pi(a_ty, inner));
                                    match eval_s(f, s11.terms, sig, elim_ty, env) {
                                        None => None,
                                        Some(elim_ty_val) => match check_s(
                                            f,
                                            s11,
                                            sig,
                                            ctx,
                                            env,
                                            elim,
                                            elim_ty_val,
                                        ) {
                                            None => None,
                                            Some((s12, Err(e))) => Some((s12, Err(e))),
                                            Some((s12, Ok(()))) => {
                                                let (s13, mt) = store(
                                                    s12,
                                                    TermData::App(motive, target),
                                                );
                                                match eval_s(f, s13.terms, sig, mt, env) {
                                                    None => None,
                                                    Some(expected) => match def_eq_s(
                                                        f,
                                                        s13,
                                                        sig,
                                                        env,
                                                        expected,
                                                        ty,
                                                    ) {
                                                        None => None,
                                                        Some((s14, true)) => Some((s14, Ok(()))),
                                                        Some((s14, false)) => Some(
                                                            (
                                                                s14,
                                                                Err(
                                                                    mismatch(
                                                                        s14.terms,
                                                                        term,
                                                                        debug_value(ty),
                                                                        debug_value(expected),
                                                                    ),
                                                                ),
                                                            ),
                                                        ),
                                                    },
                                                }
                                            },
                                        },
                                    }
                                },
                            }
                        },
                    },
                },
                _ => Some(
                    (st1, Err(mismatch(st1.terms, target, "Σ-type"@, debug_value(target_ty)))),
                ),
            },
        }
    }
}

/// Checking the ℕ-eliminator `term` (motive, base, step, target) against `ty`:
/// the motive against `Nat -> Type`, the base against `motive 0`, the step
/// against `Π n. motive n -> motive (succ n)`, the target against `Nat`, and
/// `motive target` must equal `ty`.
pub open spec fn check_nat_elim_s(
    fuel: nat,
    st: NbeState,
    sig: Map<Seq<char>, Entry>,
    ctx: Seq<ValueV>,
    env: Seq<ValueV>,
    term: TermId,
    ty: ValueV,
    motive: TermId,
    base: TermId,
    step: TermId,
    target: TermId,
) -> Option<(NbeState, Result<(), TyErrorV>)>
    decreases fuel,
{
    if fuel == 0 {
        None
    } else {
        let f = (fuel - 1) as nat;
        let (s1, n0) = store(st, TermData::Nat);
        match take_fresh(s1) {
            None => None,
            Some((s2, lvl)) => {
                let (s3, u) = store(s2, TermData::Type(lvl));
                let (s4, motive_pi) = store(s3, TermData::Pi(n0, u));
                match check_s(f, s4, sig, ctx, env, motive, ValueV::VPi(motive_pi, env)) {
                    None => None,
                    Some((s5, Err(e))) => Some((s5, Err(e))),
                    Some((s5, Ok(()))) => {
                        let (s6, z) = store(s5, TermData::Zero);
                        let (s7, mz) = store(s6, TermData::App(motive, z));
                        match eval_s(f, s7.terms, sig, mz, env) {
                            None => None,
                            Some(base_ty) => match check_s(f, s7, sig, ctx, env, base, base_ty) {
                                None => None,
                                Some((s8, Err(e))) => Some((s8, Err(e))),
                                Some((s8, Ok(()))) => {
                                    let (s9, n1) = store(s8, TermData::Nat);
                                    let (s10, v0) = store(s9, TermData::Var(0));
                                    let (s11, mv) = store(s10, TermData::App(motive, v0));
                                    let (s12, v1) = store(s11, TermData::Var(1));
                                    let (s13, sv) = store(s12, TermData::Succ(v1));
                                    let (s14, msv) = store(s13, TermData::App(motive, sv));
                                    let (s15, inner) = store(s14, TermData::Pi(mv, msv));
                                    let (s16, step_ty) = store(s15, TermData::Pi(n1, inner));
                                    match eval_s(f, s16.terms, sig, step_ty, env) {
                                        None => None,
                                        Some(step_ty_val) => match check_s(
                                            f,
                                            s16,
                                            sig,
                                            ctx,
                                            env,
                                            step,
                                            step_ty_val,
                                        ) {
                                            None => None,
                                            Some((s17, Err(e))) => Some((s17, Err(e))),
                                            Some((s17, Ok(()))) => match check_s(
                                                f,
                                                s17,
                                                sig,
                                                ctx,
                                                env,
                                                target,
                                                ValueV::VNat,
                                            ) {
                                                None => None,
                                                Some((s18, Err(e))) => Some((s18, Err(e))),
                                                Some((s18, Ok(()))) => {
                                                    let (s19, mt) = store(
                                                        s18,
                                                        TermData::App(motive, target),
                                                    );
                                                    match eval_s(f, s19.terms, sig, mt, env) {
                                                        None => None,
                                                        Some(expected) => match def_eq_s(
                                                            f,
                                                            s19,
                                                            sig,
                                                            env,
                                                            expected,
                                                            ty,
                                                        ) {
                                                            None => None,
                                                            Some((s20, true)) => Some(
                                                                (s20, Ok(())),
                                                            ),
                                                            Some((s20, false)) => Some(
                                                                (
                                                                    s20,
                                                                    Err(
                                                                        mismatch(
                                                                            s20.terms,
                                                                            term,
                                                                            debug_value(ty),
                                                                            debug_value(expected),
                                                                        ),
                                                                    ),
                                                                ),
                                                            ),
                                                        },
                                                    }
                                                },
                                            },
                                        },
                                    }
                                },
                            },
                        }
                    },
                }
            },
        }
    }
}

} // verus!

verus! {

/// Checking `term` against `ty` finishes without going wrong.
pub open spec fn checks(
    st: NbeState,
    sig: Map<Seq<char>, Entry>,
    ctx: Seq<ValueV>,
    env: Seq<ValueV>,
    term: TermId,
    ty: ValueV,
) -> bool {
    exists|f: nat| #[trigger] check_s(f, st, sig, ctx, env, term, ty) is Some
}

/// The state after checking `term` against `ty`, and the verdict (meaningful
/// when `checks` holds).
pub open spec fn check_outcome(
    st: NbeState,
    sig: Map<Seq<char>, Entry>,
    ctx: Seq<ValueV>,
    env: Seq<ValueV>,
    term: TermId,
    ty: ValueV,
) -> (NbeState, Result<(), TyErrorV>) {
    check_s(choose|f: nat| #[trigger] check_s(f, st, sig, ctx, env, term, ty) is Some, st, sig, ctx, env, term, ty).unwrap()
}

/// Inferring the type of `term` finishes without going wrong.
pub open spec fn infers(
    st: NbeState,
    sig: Map<Seq<char>, Entry>,
    ctx: Seq<ValueV>,
    env: Seq<ValueV>,
    term: TermId,
) -> bool {
    exists|f: nat| #[trigger] infer_s(f, st, sig, ctx, env, term) is Some
}

/// The state after inferring the type of `term`, and the inferred type or the
/// error (meaningful when `infers` holds).
pub open spec fn infer_outcome(
    st: NbeState,
    sig: Map<Seq<char>, Entry>,
    ctx: Seq<ValueV>,
    env: Seq<ValueV>,
    term: TermId,
) -> (NbeState, Result<ValueV, TyErrorV>) {
    infer_s(choose|f: nat| #[trigger] infer_s(f, st, sig, ctx, env, term) is Some, st, sig, ctx, env, term).unwrap()
}

/// Checking is independent of the budget: once a budget suffices, every larger
/// one gives the same state and verdict.
pub proof fn lemma_check_fuel(
    f1: nat,
    f2: nat,
    st: NbeState,
    sig: Map<Seq<char>, Entry>,
    ctx: Seq<ValueV>,
    env: Seq<ValueV>,
    term: TermId,
    ty: ValueV,
)
    requires
        f1 <= f2,
        check_s(f1, st, sig, ctx, env, term, ty) is Some,
    ensures
        check_s(f2, st, sig, ctx, env, term, ty) == check_s(f1, st, sig, ctx, env, term, ty),
    decreases f1, 1nat,
{
    let g1 = (f1 - 1) as nat;
    let g2 = (f2 - 1) as nat;
    match st.terms[term@ as int] {
        TermData::Ann(t, ty_term) => {
            lemma_eval_fuel(g1, g2, st.terms, sig, ty_term, env);
            let expected = eval_s(g1, st.terms, sig, ty_term, env).unwrap();
            lemma_def_eq_fuel(g1, g2, st, sig, env, expected, ty);
            if let Some((st1, true)) = def_eq_s(g1, st, sig, env, expected, ty) {
                lemma_check_fuel(g1, g2, st1, sig, ctx, env, t, ty);
            }
        },
        TermData::Lam(param_ty, body) => {
            lemma_check_lam_fuel(g1, g2, st, sig, ctx, env, term, param_ty, body, ty);
        },
        TermData::Pair(x, y) => {
            lemma_check_pair_fuel(g1, g2, st, sig, ctx, env, term, x, y, ty);
        },
        TermData::Zero => {
            lemma_def_eq_fuel(g1, g2, st, sig, env, ty, ValueV::VNat);
        },
        TermData::Succ(n) => {
            lemma_def_eq_fuel(g1, g2, st, sig, env, ty, ValueV::VNat);
            if let Some((st1, true)) = def_eq_s(g1, st, sig, env, ty, ValueV::VNat) {
                lemma_check_fuel(g1, g2, st1, sig, ctx, env, n, ValueV::VNat);
            }
        },
        TermData::NatElim { motive, base, step, target } => {
            lemma_check_nat_elim_fuel(g1, g2, st, sig, ctx, env, term, ty, motive, base, step, target);
        },
        TermData::SigmaElim { motive, elim, target } => {
            lemma_check_sigma_elim_fuel(g1, g2, st, sig, ctx, env, term, ty, motive, elim, target);
        },
        _ => {
            lemma_infer_fuel(g1, g2, st, sig, ctx, env, term);
            if let Some((st1, Ok(inferred))) = infer_s(g1, st, sig, ctx, env, term) {
                lemma_def_eq_fuel(g1, g2, st1, sig, env, inferred, ty);
            }
        },
    }
}

proof fn lemma_check_lam_fuel(
    f1: nat,
    f2: nat,
    st: NbeState,
    sig: Map<Seq<char>, Entry>,
    ctx: Seq<ValueV>,
    env: Seq<ValueV>,
    term: TermId,
    param_ty: TermId,
    body: TermId,
    ty: ValueV,
)
    requires
        f1 <= f2,
        check_lam_s(f1, st, sig, ctx, env, term, param_ty, body, ty) is Some,
    ensures
        check_lam_s(f2, st, sig, ctx, env, term, param_ty, body, ty) == check_lam_s(
            f1,
            st,
            sig,
            ctx,
            env,
            term,
            param_ty,
            body,
            ty,
        ),
    decreases f1, 0nat,
{
    let g1 = (f1 - 1) as nat;
    let g2 = (f2 - 1) as nat;
    if let ValueV::VPi(pi_id, pi_env) = ty {
        if let Some(Ok((dom, cod))) = parts_s(st.terms, pi_id, true) {
            lemma_eval_fuel(g1, g2, st.terms, sig, dom, pi_env);
            lemma_eval_fuel(g1, g2, st.terms, sig, param_ty, env);
            let dom_val = eval_s(g1, st.terms, sig, dom, pi_env).unwrap();
            let param_val = eval_s(g1, st.terms, sig, param_ty, env).unwrap();
            lemma_def_eq_fuel(g1, g2, st, sig, env, param_val, dom_val);
            if let Some((st1, true)) = def_eq_s(g1, st, sig, env, param_val, dom_val) {
                let cod_env = pi_env.push(fresh_var(pi_env.len() as usize));
                lemma_eval_fuel(g1, g2, st1.terms, sig, cod, cod_env);
                lemma_check_fuel(
                    g1,
                    g2,
                    st1,
                    sig,
                    ctx.push(dom_val),
                    env.push(fresh_var(env.len() as usize)),
                    body,
                    eval_s(g1, st1.terms, sig, cod, cod_env).unwrap(),
                );
            }
        }
    }
}

proof fn lemma_check_pair_fuel(
    f1: nat,
    f2: nat,
    st: NbeState,
    sig: Map<Seq<char>, Entry>,
    ctx: Seq<ValueV>,
    env: Seq<ValueV>,
    term: TermId,
    x: TermId,
    y: TermId,
    ty: ValueV,
)
    requires
        f1 <= f2,
        check_pair_s(f1, st, sig, ctx, env, term, x, y, ty) is Some,
    ensures
        check_pair_s(f2, st, sig, ctx, env, term, x, y, ty) == check_pair_s(f1, st, sig, ctx, env, term, x, y, ty),
    decreases f1, 0nat,
{
    let g1 = (f1 - 1) as nat;
    let g2 = (f2 - 1) as nat;
    if let ValueV::VSigma(sig_id, env_sig) = ty {
        if let Some(Ok((a, b))) = parts_s(st.terms, sig_id, false) {
            lemma_eval_fuel(g1, g2, st.terms, sig, a, env_sig);
            let fst_ty = eval_s(g1, st.terms, sig, a, env_sig).unwrap();
            lemma_check_fuel(g1, g2, st, sig, ctx, env, x, fst_ty);
            if let Some((st1, Ok(()))) = check_s(g1, st, sig, ctx, env, x, fst_ty) {
                lemma_eval_fuel(g1, g2, st1.terms, sig, x, env);
                let fst_val = eval_s(g1, st1.terms, sig, x, env).unwrap();
                lemma_eval_fuel(g1, g2, st1.terms, sig, b, env_sig.push(fst_val));
                let snd_ty = eval_s(g1, st1.terms, sig, b, env_sig.push(fst_val)).unwrap();
                lemma_check_fuel(g1, g2, st1, sig, ctx, env, y, snd_ty);
            }
        }
    }
}

/// Inference is independent of the budget: once a budget suffices, every larger
/// one gives the same state and outcome.
pub proof fn lemma_infer_fuel(
    f1: nat,
    f2: nat,
    st: NbeState,
    sig: Map<Seq<char>, Entry>,
    ctx: Seq<ValueV>,
    env: Seq<ValueV>,
    term: TermId,
)
    requires
        f1 <= f2,
        infer_s(f1, st, sig, ctx, env, term) is Some,
    ensures
        infer_s(f2, st, sig, ctx, env, term) == infer_s(f1, st, sig, ctx, env, term),
    decreases f1, 1nat,
{
    let g1 = (f1 - 1) as nat;
    let g2 = (f2 - 1) as nat;
    match st.terms[term@ as int] {
        TermData::Pi(a, b) => lemma_infer_binder_fuel(g1, g2, st, sig, ctx, env, term, a, b, true),
        TermData::Sigma(a, b) => lemma_infer_binder_fuel(g1, g2, st, sig, ctx, env, term, a, b, false),
        TermData::Lam(param_ty, body) => lemma_infer_lam_fuel(g1, g2, st, sig, ctx, env, param_ty, body),
        TermData::App(fx, x) => {
            lemma_infer_fuel(g1, g2, st, sig, ctx, env, fx);
            if let Some((st1, Ok(fun_ty))) = infer_s(g1, st, sig, ctx, env, fx) {
                lemma_app_infer_fuel(g1, g2, st1, sig, ctx, env, term, x, fun_ty);
            }
        },
        TermData::Fst(p) => lemma_infer_proj_fuel(g1, g2, st, sig, ctx, env, term, p, true),
        TermData::Snd(p) => lemma_infer_proj_fuel(g1, g2, st, sig, ctx, env, term, p, false),
        TermData::Succ(n) => lemma_check_fuel(g1, g2, st, sig, ctx, env, n, ValueV::VNat),
        TermData::Ann(t, ty) => {
            lemma_eval_fuel(g1, g2, st.terms, sig, ty, env);
            lemma_check_fuel(g1, g2, st, sig, ctx, env, t, eval_s(g1, st.terms, sig, ty, env).unwrap());
        },
        TermData::Const(name) => lemma_lookup_const_fuel(g1, g2, st, sig, term, name),
        _ => {},
    }
}

proof fn lemma_infer_binder_fuel(
    f1: nat,
    f2: nat,
    st: NbeState,
    sig: Map<Seq<char>, Entry>,
    ctx: Seq<ValueV>,
    env: Seq<ValueV>,
    term: TermId,
    a: TermId,
    b: TermId,
    is_pi: bool,
)
    requires
        f1 <= f2,
        infer_binder_s(f1, st, sig, ctx, env, term, a, b, is_pi) is Some,
    ensures
        infer_binder_s(f2, st, sig, ctx, env, term, a, b, is_pi) == infer_binder_s(
            f1,
            st,
            sig,
            ctx,
            env,
            term,
            a,
            b,
            is_pi,
        ),
    decreases f1, 0nat,
{
    let g1 = (f1 - 1) as nat;
    let g2 = (f2 - 1) as nat;
    let new_env = env.push(fresh_var(env.len() as usize));
    lemma_infer_fuel(g1, g2, st, sig, ctx, env, a);
    if let Some((st1, Ok(a_ty))) = infer_s(g1, st, sig, ctx, env, a) {
        match a_ty {
            ValueV::VType(_) => {
                lemma_eval_fuel(g1, g2, st1.terms, sig, a, env);
                let dom = eval_s(g1, st1.terms, sig, a, env).unwrap();
                lemma_infer_fuel(g1, g2, st1, sig, ctx.push(dom), new_env, b);
            },
            _ => if is_pi {
                lemma_infer_fuel(g1, g2, st1, sig, ctx.push(a_ty), new_env, b);
            },
        }
    }
}

proof fn lemma_infer_lam_fuel(
    f1: nat,
    f2: nat,
    st: NbeState,
    sig: Map<Seq<char>, Entry>,
    ctx: Seq<ValueV>,
    env: Seq<ValueV>,
    param_ty: TermId,
    body: TermId,
)
    requires
        f1 <= f2,
        infer_lam_s(f1, st, sig, ctx, env, param_ty, body) is Some,
    ensures
        infer_lam_s(f2, st, sig, ctx, env, param_ty, body) == infer_lam_s(f1, st, sig, ctx, env, param_ty, body),
    decreases f1, 0nat,
{
    let g1 = (f1 - 1) as nat;
    let g2 = (f2 - 1) as nat;
    let new_env = env.push(fresh_var(env.len() as usize));
    lemma_eval_fuel(g1, g2, st.terms, sig, param_ty, env);
    let dom = eval_s(g1, st.terms, sig, param_ty, env).unwrap();
    lemma_infer_fuel(g1, g2, st, sig, ctx.push(dom), new_env, body);
    if let Some((st1, Ok(cod_val))) = infer_s(g1, st, sig, ctx.push(dom), new_env, body) {
        lemma_quote_fuel(g1, g2, st1.terms, sig, cod_val, new_env.len() as usize);
    }
}

proof fn lemma_infer_proj_fuel(
    f1: nat,
    f2: nat,
    st: NbeState,
    sig: Map<Seq<char>, Entry>,
    ctx: Seq<ValueV>,
    env: Seq<ValueV>,
    term: TermId,
    p: TermId,
    is_fst: bool,
)
    requires
        f1 <= f2,
        infer_proj_s(f1, st, sig, ctx, env, term, p, is_fst) is Some,
    ensures
        infer_proj_s(f2, st, sig, ctx, env, term, p, is_fst) == infer_proj_s(f1, st, sig, ctx, env, term, p, is_fst),
    decreases f1, 0nat,
{
    let g1 = (f1 - 1) as nat;
    let g2 = (f2 - 1) as nat;
    lemma_infer_fuel(g1, g2, st, sig, ctx, env, p);
    if let Some((st1, Ok(ValueV::VSigma(sig_id, env_sig)))) = infer_s(g1, st, sig, ctx, env, p) {
        if let Some(Ok((a, b))) = parts_s(st1.terms, sig_id, false) {
            if is_fst {
                lemma_eval_fuel(g1, g2, st1.terms, sig, a, env_sig);
            } else {
                lemma_eval_fuel(g1, g2, st1.terms, sig, p, env);
                if let Some(ValueV::VPair(x, _)) = eval_s(g1, st1.terms, sig, p, env) {
                    lemma_eval_fuel(g1, g2, st1.terms, sig, b, env_sig.push(*x));
                }
            }
        }
    }
}

proof fn lemma_app_infer_fuel(
    f1: nat,
    f2: nat,
    st: NbeState,
    sig: Map<Seq<char>, Entry>,
    ctx: Seq<ValueV>,
    env: Seq<ValueV>,
    term: TermId,
    x: TermId,
    fun_ty: ValueV,
)
    requires
        f1 <= f2,
        app_infer_s(f1, st, sig, ctx, env, term, x, fun_ty) is Some,
    ensures
        app_infer_s(f2, st, sig, ctx, env, term, x, fun_ty) == app_infer_s(f1, st, sig, ctx, env, term, x, fun_ty),
    decreases f1, 0nat,
{
    let g1 = (f1 - 1) as nat;
    let g2 = (f2 - 1) as nat;
    if let Some((pi_id, pi_env)) = pi_of(fun_ty) {
        if let Some(Ok((dom, cod))) = parts_s(st.terms, pi_id, true) {
            lemma_eval_fuel(g1, g2, st.terms, sig, dom, pi_env);
            lemma_eval_fuel(g1, g2, st.terms, sig, x, env);
            let dom_val = eval_s(g1, st.terms, sig, dom, pi_env).unwrap();
            let arg_val = eval_s(g1, st.terms, sig, x, env).unwrap();
            lemma_check_fuel(g1, g2, st, sig, ctx, env, x, dom_val);
            if let Some((st1, Ok(()))) = check_s(g1, st, sig, ctx, env, x, dom_val) {
                lemma_eval_fuel(g1, g2, st1.terms, sig, cod, pi_env.push(arg_val));
            }
        }
    }
}

proof fn lemma_lookup_const_fuel(
    f1: nat,
    f2: nat,
    st: NbeState,
    sig: Map<Seq<char>, Entry>,
    term: TermId,
    name: Name,
)
    requires
        f1 <= f2,
        lookup_const_s(f1, st, sig, term, name) is Some,
    ensures
        lookup_const_s(f2, st, sig, term, name) == lookup_const_s(f1, st, sig, term, name),
    decreases f1, 0nat,
{
    let g1 = (f1 - 1) as nat;
    let g2 = (f2 - 1) as nat;
    if sig.contains_key(name.0@) {
        match sig[name.0@] {
            Entry::Def { ty, .. } => lemma_eval_fuel(g1, g2, st.terms, sig, ty, Seq::empty()),
            Entry::Axiom { ty } => lemma_eval_fuel(g1, g2, st.terms, sig, ty, Seq::empty()),
        }
    }
}

proof fn lemma_check_sigma_elim_fuel(
    f1: nat,
    f2: nat,
    st: NbeState,
    sig: Map<Seq<char>, Entry>,
    ctx: Seq<ValueV>,
    env: Seq<ValueV>,
    term: TermId,
    ty: ValueV,
    motive: TermId,
    elim: TermId,
    target: TermId,
)
    requires
        f1 <= f2,
        check_sigma_elim_s(f1, st, sig, ctx, env, term, ty, motive, elim, target) is Some,
    ensures
        check_sigma_elim_s(f2, st, sig, ctx, env, term, ty, motive, elim, target) == check_sigma_elim_s(
            f1,
            st,
            sig,
            ctx,
            env,
            term,
            ty,
            motive,
            elim,
            target,
        ),
    decreases f1, 0nat,
{
    let g1 = (f1 - 1) as nat;
    let g2 = (f2 - 1) as nat;
    lemma_infer_fuel(g1, g2, st, sig, ctx, env, target);
    if let Some((st1, Ok(ValueV::VSigma(sig_id, _)))) = infer_s(g1, st, sig, ctx, env, target) {
        if let Some(Ok((a_ty, b_ty))) = parts_s(st1.terms, sig_id, false) {
            if let Some((st2, lvl)) = take_fresh(st1) {
                let (st3, u) = store(st2, TermData::Type(lvl));
                let (st4, motive_pi) = store(st3, TermData::Pi(sig_id, u));
                lemma_check_fuel(g1, g2, st4, sig, ctx, env, motive, ValueV::VPi(motive_pi, env));
                if let Some((st5, Ok(()))) = check_s(g1, st4, sig, ctx, env, motive, ValueV::VPi(motive_pi, env)) {
                    let (s6, v1) = store(st5, TermData::Var(1));
                    let (s7, v0) = store(s6, TermData::Var(0));
                    let (s8, pr) = store(s7, TermData::Pair(v1, v0));
                    let (s9, ap) = store(s8, TermData::App(motive, pr));
                    let (s10, inner) = store(s9, TermData::Pi(b_ty, ap));
                    let (s11, elim_ty) = store(s10, TermData::Pi(a_ty, inner));
                    lemma_eval_fuel(g1, g2, s11.terms, sig, elim_ty, env);
                    let elim_ty_val = eval_s(g1, s11.terms, sig, elim_ty, env).unwrap();
                    lemma_check_fuel(g1, g2, s11, sig, ctx, env, elim, elim_ty_val);
                    if let Some((s12, Ok(()))) = check_s(g1, s11, sig, ctx, env, elim, elim_ty_val) {
                        let (s13, mt) = store(s12, TermData::App(motive, target));
                        lemma_eval_fuel(g1, g2, s13.terms, sig, mt, env);
                        let expected = eval_s(g1, s13.terms, sig, mt, env).unwrap();
                        lemma_def_eq_fuel(g1, g2, s13, sig, env, expected, ty);
                    }
                }
            }
        }
    }
}

proof fn lemma_check_nat_elim_fuel(
    f1: nat,
    f2: nat,
    st: NbeState,
    sig: Map<Seq<char>, Entry>,
    ctx: Seq<ValueV>,
    env: Seq<ValueV>,
    term: TermId,
    ty: ValueV,
    motive: TermId,
    base: TermId,
    step: TermId,
    target: TermId,
)
    requires
        f1 <= f2,
        check_nat_elim_s(f1, st, sig, ctx, env, term, ty, motive, base, step, target) is Some,
    ensures
        check_nat_elim_s(f2, st, sig, ctx, env, term, ty, motive, base, step, target) == check_nat_elim_s(
            f1,
            st,
            sig,
            ctx,
            env,
            term,
            ty,
            motive,
            base,
            step,
            target,
        ),
    decreases f1, 0nat,
{
    let g1 = (f1 - 1) as nat;
    let g2 = (f2 - 1) as nat;
    let (s1, n0) = store(st, TermData::Nat);
    if let Some((s2, lvl)) = take_fresh(s1) {
        let (s3, u) = store(s2, TermData::Type(lvl));
        let (s4, motive_pi) = store(s3, TermData::Pi(n0, u));
        lemma_check_fuel(g1, g2, s4, sig, ctx, env, motive, ValueV::VPi(motive_pi, env));
        if let Some((s5, Ok(()))) = check_s(g1, s4, sig, ctx, env, motive, ValueV::VPi(motive_pi, env)) {
            let (s6, z) = store(s5, TermData::Zero);
            let (s7, mz) = store(s6, TermData::App(motive, z));
            lemma_eval_fuel(g1, g2, s7.terms, sig, mz, env);
            let base_ty = eval_s(g1, s7.terms, sig, mz, env).unwrap();
            lemma_check_fuel(g1, g2, s7, sig, ctx, env, base, base_ty);
            if let Some((s8, Ok(()))) = check_s(g1, s7, sig, ctx, env, base, base_ty) {
                let (s9, n1) = store(s8, TermData::Nat);
                let (s10, v0) = store(s9, TermData::Var(0));
                let (s11, mv) = store(s10, TermData::App(motive, v0));
                let (s12, v1) = store(s11, TermData::Var(1));
                let (s13, sv) = store(s12, TermData::Succ(v1));
                let (s14, msv) = store(s13, TermData::App(motive, sv));
                let (s15, inner) = store(s14, TermData::Pi(mv, msv));
                let (s16, step_ty) = store(s15, TermData::Pi(n1, inner));
                lemma_eval_fuel(g1, g2, s16.terms, sig, step_ty, env);
                let step_ty_val = eval_s(g1, s16.terms, sig, step_ty, env).unwrap();
                lemma_check_fuel(g1, g2, s16, sig, ctx, env, step, step_ty_val);
                if let Some((s17, Ok(()))) = check_s(g1, s16, sig, ctx, env, step, step_ty_val) {
                    lemma_check_fuel(g1, g2, s17, sig, ctx, env, target, ValueV::VNat);
                    if let Some((s18, Ok(()))) = check_s(g1, s17, sig, ctx, env, target, ValueV::VNat) {
                        let (s19, mt) = store(s18, TermData::App(motive, target));
                        lemma_eval_fuel(g1, g2, s19.terms, sig, mt, env);
                        let expected = eval_s(g1, s19.terms, sig, mt, env).unwrap();
                        lemma_def_eq_fuel(g1, g2, s19, sig, env, expected, ty);
                    }
                }
            }
        }
    }
}

/// The outcome `check_outcome` names is the one every sufficient budget gives.
pub proof fn lemma_check_result(
    st: NbeState,
    sig: Map<Seq<char>, Entry>,
    ctx: Seq<ValueV>,
    env: Seq<ValueV>,
    term: TermId,
    ty: ValueV,
    f: nat,
)
    requires
        check_s(f, st, sig, ctx, env, term, ty) is Some,
    ensures
        checks(st, sig, ctx, env, term, ty),
        check_outcome(st, sig, ctx, env, term, ty) == check_s(f, st, sig, ctx, env, term, ty).unwrap(),
{
    let g = choose|g: nat| #[trigger] check_s(g, st, sig, ctx, env, term, ty) is Some;
    if g <= f {
        lemma_check_fuel(g, f, st, sig, ctx, env, term, ty);
    } else {
        lemma_check_fuel(f, g, st, sig, ctx, env, term, ty);
    }
}

/// The outcome `infer_outcome` names is the one every sufficient budget gives.
pub proof fn lemma_infer_result(
    st: NbeState,
    sig: Map<Seq<char>, Entry>,
    ctx: Seq<ValueV>,
    env: Seq<ValueV>,
    term: TermId,
    f: nat,
)
    requires
        infer_s(f, st, sig, ctx, env, term) is Some,
    ensures
        infers(st, sig, ctx, env, term),
        infer_outcome(st, sig, ctx, env, term) == infer_s(f, st, sig, ctx, env, term).unwrap(),
{
    let g = choose|g: nat| #[trigger] infer_s(g, st, sig, ctx, env, term) is Some;
    if g <= f {
        lemma_infer_fuel(g, f, st, sig, ctx, env, term);
    } else {
        lemma_infer_fuel(f, g, st, sig, ctx, env, term);
    }
}

/// Pairs and eliminators carry no type to infer, whatever their parts: inference
/// reports this at the term and changes neither the arena nor the constraints.
pub proof fn lemma_infer_cannot_infer(
    st: NbeState,
    sig: Map<Seq<char>, Entry>,
    ctx: Seq<ValueV>,
    env: Seq<ValueV>,
    term: TermId,
)
    requires
        term@ < st.terms.len(),
        st.terms[term@ as int] is Pair || st.terms[term@ as int] is NatElim || st.terms[term@ as int] is SigmaElim,
    ensures
        infers(st, sig, ctx, env, term),
        infer_outcome(st, sig, ctx, env, term) == (
            st,
            Err::<ValueV, TyErrorV>(TyErrorV::CannotInfer { term: term_text(st.terms, term) }),
        ),
{
    assert(infer_s(1, st, sig, ctx, env, term) == Some(
        (st, Err::<ValueV, TyErrorV>(TyErrorV::CannotInfer { term: term_text(st.terms, term) })),
    ));
    lemma_infer_result(st, sig, ctx, env, term, 1);
}

/// An annotated term infers as its evaluated annotation exactly when it checks
/// against it; otherwise inference fails with checking's error.
pub proof fn lemma_infer_annotation(
    st: NbeState,
    sig: Map<Seq<char>, Entry>,
    ctx: Seq<ValueV>,
    env: Seq<ValueV>,
    term: TermId,
)
    requires
        term@ < st.terms.len(),
        st.terms[term@ as int] is Ann,
        infers(st, sig, ctx, env, term),
    ensures
        ({
            let t = st.terms[term@ as int]->Ann_0;
            let ty = st.terms[term@ as int]->Ann_1;
            let expected = crate::nbe::eval_result(st.terms, sig, ty, env);
            &&& crate::nbe::evaluates(st.terms, sig, ty, env)
            &&& checks(st, sig, ctx, env, t, expected)
            &&& infer_outcome(st, sig, ctx, env, term) == match check_outcome(st, sig, ctx, env, t, expected) {
                (st1, Ok(())) => (st1, Ok::<ValueV, TyErrorV>(expected)),
                (st1, Err(e)) => (st1, Err(e)),
            }
        }),
{
    let t = st.terms[term@ as int]->Ann_0;
    let ty = st.terms[term@ as int]->Ann_1;
    let f = choose|f: nat| #[trigger] infer_s(f, st, sig, ctx, env, term) is Some;
    assert(infer_s(f, st, sig, ctx, env, term) is Some);
    let g = (f - 1) as nat;
    assert(eval_s(g, st.terms, sig, ty, env) is Some);
    crate::nbe::lemma_eval_result(st.terms, sig, ty, env, g);
    let expected = eval_s(g, st.terms, sig, ty, env).unwrap();
    assert(check_s(g, st, sig, ctx, env, t, expected) is Some);
    lemma_check_result(st, sig, ctx, env, t, expected, g);
    lemma_infer_result(st, sig, ctx, env, term, f);
}

/// Checking a pair against a Σ-type checks the first component against the
/// domain and then the second against the codomain at the first component's
/// value; the pair checks exactly when both do, and otherwise fails with the
/// first failure. Against a type that is not a Σ-type it reports a mismatch
/// with "Σ-type" and changes nothing.
pub proof fn lemma_check_pair(
    st: NbeState,
    sig: Map<Seq<char>, Entry>,
    ctx: Seq<ValueV>,
    env: Seq<ValueV>,
    term: TermId,
    ty: ValueV,
)
    requires
        term@ < st.terms.len(),
        st.terms[term@ as int] is Pair,
        checks(st, sig, ctx, env, term, ty),
    ensures
        ({
            let x = st.terms[term@ as int]->Pair_0;
            let y = st.terms[term@ as int]->Pair_1;
            match ty {
                ValueV::VSigma(s, e) => match binder_parts(st.terms, s, false) {
                    Some((dom, cod)) => {
                        let fst_ty = crate::nbe::eval_result(st.terms, sig, dom, e);
                        &&& s@ < st.terms.len()
                        &&& crate::nbe::evaluates(st.terms, sig, dom, e)
                        &&& checks(st, sig, ctx, env, x, fst_ty)
                        &&& match check_outcome(st, sig, ctx, env, x, fst_ty) {
                            (st1, Ok(())) => {
                                let fst_val = crate::nbe::eval_result(st1.terms, sig, x, env);
                                let snd_ty = crate::nbe::eval_result(st1.terms, sig, cod, e.push(fst_val));
                                &&& crate::nbe::evaluates(st1.terms, sig, x, env)
                                &&& crate::nbe::evaluates(st1.terms, sig, cod, e.push(fst_val))
                                &&& checks(st1, sig, ctx, env, y, snd_ty)
                                &&& check_outcome(st, sig, ctx, env, term, ty) == check_outcome(
                                    st1,
                                    sig,
                                    ctx,
                                    env,
                                    y,
                                    snd_ty,
                                )
                            },
                            (st1, Err(err)) => check_outcome(st, sig, ctx, env, term, ty) == (
                                st1,
                                Err::<(), TyErrorV>(err),
                            ),
                        }
                    },
                    None => {
                        &&& s@ < st.terms.len()
                        &&& check_outcome(st, sig, ctx, env, term, ty) == (
                            st,
                            Err::<(), TyErrorV>(TyErrorV::InvalidElim { term: term_text(st.terms, s) }),
                        )
                    },
                },
                _ => check_outcome(st, sig, ctx, env, term, ty) == (
                    st,
                    Err::<(), TyErrorV>(mismatch(st.terms, term, "Σ-type"@, debug_value(ty))),
                ),
            }
        }),
{
    let x = st.terms[term@ as int]->Pair_0;
    let y = st.terms[term@ as int]->Pair_1;
    let f = choose|f: nat| #[trigger] check_s(f, st, sig, ctx, env, term, ty) is Some;
    assert(check_s(f, st, sig, ctx, env, term, ty) is Some);
    lemma_check_result(st, sig, ctx, env, term, ty, f);
    let g1 = (f - 1) as nat;
    assert(check_s(f, st, sig, ctx, env, term, ty) == check_pair_s(g1, st, sig, ctx, env, term, x, y, ty));
    let g = (g1 - 1) as nat;
    match ty {
        ValueV::VSigma(s, e) => {
            match binder_parts(st.terms, s, false) {
                Some((dom, cod)) => {
                    assert(eval_s(g, st.terms, sig, dom, e) is Some);
                    crate::nbe::lemma_eval_result(st.terms, sig, dom, e, g);
                    let fst_ty = eval_s(g, st.terms, sig, dom, e).unwrap();
                    assert(check_s(g, st, sig, ctx, env, x, fst_ty) is Some);
                    lemma_check_result(st, sig, ctx, env, x, fst_ty, g);
                    if let Some((st1, Ok(()))) = check_s(g, st, sig, ctx, env, x, fst_ty) {
                        assert(eval_s(g, st1.terms, sig, x, env) is Some);
                        crate::nbe::lemma_eval_result(st1.terms, sig, x, env, g);
                        let fst_val = eval_s(g, st1.terms, sig, x, env).unwrap();
                        assert(eval_s(g, st1.terms, sig, cod, e.push(fst_val)) is Some);
                        crate::nbe::lemma_eval_result(st1.terms, sig, cod, e.push(fst_val), g);
                        let snd_ty = eval_s(g, st1.terms, sig, cod, e.push(fst_val)).unwrap();
                        assert(check_s(g, st1, sig, ctx, env, y, snd_ty) is Some);
                        lemma_check_result(st1, sig, ctx, env, y, snd_ty, g);
                    }
                },
                None => {},
            }
        },
        _ => {},
    }
}

/// The type of a constant: an unknown name is reported with the term and the
/// name; a definition has the value of its declared type, and an axiom the
/// opaque constant that carries the value of its type, both types evaluated in
/// the empty environment. Nothing else changes.
pub proof fn lemma_infer_constant(
    st: NbeState,
    sig: Map<Seq<char>, Entry>,
    ctx: Seq<ValueV>,
    env: Seq<ValueV>,
    term: TermId,
)
    requires
        term@ < st.terms.len(),
        st.terms[term@ as int] is Const,
    ensures
        ({
            let name = st.terms[term@ as int]->Const_0;
            if !sig.contains_key(name.0@) {
                &&& infers(st, sig, ctx, env, term)
                &&& infer_outcome(st, sig, ctx, env, term) == (
                    st,
                    Err::<ValueV, TyErrorV>(
                        TyErrorV::UnknownConst { term: term_text(st.terms, term), name: name.0@ },
                    ),
                )
            } else {
                let ty = match sig[name.0@] {
                    Entry::Def { ty, .. } => ty,
                    Entry::Axiom { ty } => ty,
                };
                let vty = crate::nbe::eval_result(st.terms, sig, ty, Seq::empty());
                &&& infers(st, sig, ctx, env, term) == crate::nbe::evaluates(st.terms, sig, ty, Seq::empty())
                &&& crate::nbe::evaluates(st.terms, sig, ty, Seq::empty()) ==> infer_outcome(
                    st,
                    sig,
                    ctx,
                    env,
                    term,
                ) == (st, Ok::<ValueV, TyErrorV>(match sig[name.0@] {
                    Entry::Def { .. } => vty,
                    Entry::Axiom { .. } => ValueV::VConst(name, Box::new(vty)),
                }))
            }
        }),
{
    let name = st.terms[term@ as int]->Const_0;
    assert(forall|f: nat| f > 0 ==> #[trigger] infer_s(f, st, sig, ctx, env, term) == lookup_const_s((f - 1) as nat, st, sig, term, name));
    if !sig.contains_key(name.0@) {
        assert(infer_s(2, st, sig, ctx, env, term) is Some);
        lemma_infer_result(st, sig, ctx, env, term, 2);
    } else {
        let ty = match sig[name.0@] {
            Entry::Def { ty, .. } => ty,
            Entry::Axiom { ty } => ty,
        };
        assert(forall|f: nat| f > 0 ==> #[trigger] lookup_const_s(f, st, sig, term, name) == match eval_s((f - 1) as nat, st.terms, sig, ty, Seq::empty()) {
            Some(vty) => Some((st, Ok::<ValueV, TyErrorV>(match sig[name.0@] {
                Entry::Def { .. } => vty,
                Entry::Axiom { .. } => ValueV::VConst(name, Box::new(vty)),
            }))),
            None => None,
        });
        if infers(st, sig, ctx, env, term) {
            let f = choose|f: nat| #[trigger] infer_s(f, st, sig, ctx, env, term) is Some;
            assert(infer_s(f, st, sig, ctx, env, term) is Some);
            assert(f > 0);
            assert(lookup_const_s((f - 1) as nat, st, sig, term, name) is Some);
            assert(f >= 2);
            assert(eval_s((f - 2) as nat, st.terms, sig, ty, Seq::empty()) is Some);
            crate::nbe::lemma_eval_result(st.terms, sig, ty, Seq::empty(), (f - 2) as nat);
            lemma_infer_result(st, sig, ctx, env, term, f);
        }
        if crate::nbe::evaluates(st.terms, sig, ty, Seq::empty()) {
            let g = choose|g: nat| #[trigger] eval_s(g, st.terms, sig, ty, Seq::empty()) is Some;
            assert(eval_s(g, st.terms, sig, ty, Seq::empty()) is Some);
            assert(lookup_const_s(g + 1, st, sig, term, name) is Some);
            assert(infer_s(g + 2, st, sig, ctx, env, term) is Some);
            crate::nbe::lemma_eval_result(st.terms, sig, ty, Seq::empty(), g);
            lemma_infer_result(st, sig, ctx, env, term, g + 2);
        }
    }
}

/// Application: inferring `f x` first infers `f`, whose type must be a Π-type
/// (possibly carried by an opaque constant); then `x` is checked against the
/// Π-type's domain. The application is typed exactly when that check succeeds,
/// and its type is then the codomain at the value of `x`; a failure of `f` or of
/// the argument is the application's error, in the state it left.
pub proof fn lemma_infer_application(
    st: NbeState,
    sig: Map<Seq<char>, Entry>,
    ctx: Seq<ValueV>,
    env: Seq<ValueV>,
    term: TermId,
)
    requires
        term@ < st.terms.len(),
        st.terms[term@ as int] is App,
        infers(st, sig, ctx, env, term),
    ensures
        ({
            let fx = st.terms[term@ as int]->App_0;
            let x = st.terms[term@ as int]->App_1;
            &&& infers(st, sig, ctx, env, fx)
            &&& match infer_outcome(st, sig, ctx, env, fx) {
                (st1, Err(e)) => infer_outcome(st, sig, ctx, env, term) == (st1, Err::<ValueV, TyErrorV>(e)),
                (st1, Ok(fun_ty)) => match pi_of(fun_ty) {
                    None => infer_outcome(st, sig, ctx, env, term) == (
                        st1,
                        Err::<ValueV, TyErrorV>(mismatch(st1.terms, term, "Π-type"@, debug_value(fun_ty))),
                    ),
                    Some((pi_id, pi_env)) => {
                        &&& pi_id@ < st1.terms.len()
                        &&& match binder_parts(st1.terms, pi_id, true) {
                            None => infer_outcome(st, sig, ctx, env, term).1 is Err,
                            Some((dom, cod)) => {
                                let dom_val = crate::nbe::eval_result(st1.terms, sig, dom, pi_env);
                                let arg_val = crate::nbe::eval_result(st1.terms, sig, x, env);
                                &&& crate::nbe::evaluates(st1.terms, sig, dom, pi_env)
                                &&& crate::nbe::evaluates(st1.terms, sig, x, env)
                                &&& checks(st1, sig, ctx, env, x, dom_val)
                                &&& match check_outcome(st1, sig, ctx, env, x, dom_val) {
                                    (st2, Err(e)) => infer_outcome(st, sig, ctx, env, term) == (
                                        st2,
                                        Err::<ValueV, TyErrorV>(e),
                                    ),
                                    (st2, Ok(())) => {
                                        &&& crate::nbe::evaluates(st2.terms, sig, cod, pi_env.push(arg_val))
                                        &&& infer_outcome(st, sig, ctx, env, term) == (
                                            st2,
                                            Ok::<ValueV, TyErrorV>(
                                                crate::nbe::eval_result(st2.terms, sig, cod, pi_env.push(arg_val)),
                                            ),
                                        )
                                    },
                                }
                            },
                        }
                    },
                },
            }
        }),
{
    let fx = st.terms[term@ as int]->App_0;
    let x = st.terms[term@ as int]->App_1;
    let f = choose|f: nat| #[trigger] infer_s(f, st, sig, ctx, env, term) is Some;
    assert(infer_s(f, st, sig, ctx, env, term) is Some);
    lemma_infer_result(st, sig, ctx, env, term, f);
    let g1 = (f - 1) as nat;
    assert(infer_s(g1, st, sig, ctx, env, fx) is Some);
    lemma_infer_result(st, sig, ctx, env, fx, g1);
    if let Some((st1, Ok(fun_ty))) = infer_s(g1, st, sig, ctx, env, fx) {
        assert(infer_s(f, st, sig, ctx, env, term) == app_infer_s(g1, st1, sig, ctx, env, term, x, fun_ty));
        let g = (g1 - 1) as nat;
        if let Some((pi_id, pi_env)) = pi_of(fun_ty) {
            if let Some((dom, cod)) = binder_parts(st1.terms, pi_id, true) {
                assert(eval_s(g, st1.terms, sig, dom, pi_env) is Some);
                assert(eval_s(g, st1.terms, sig, x, env) is Some);
                crate::nbe::lemma_eval_result(st1.terms, sig, dom, pi_env, g);
                crate::nbe::lemma_eval_result(st1.terms, sig, x, env, g);
                let dom_val = eval_s(g, st1.terms, sig, dom, pi_env).unwrap();
                let arg_val = eval_s(g, st1.terms, sig, x, env).unwrap();
                assert(check_s(g, st1, sig, ctx, env, x, dom_val) is Some);
                lemma_check_result(st1, sig, ctx, env, x, dom_val, g);
                if let Some((st2, Ok(()))) = check_s(g, st1, sig, ctx, env, x, dom_val) {
                    assert(eval_s(g, st2.terms, sig, cod, pi_env.push(arg_val)) is Some);
                    crate::nbe::lemma_eval_result(st2.terms, sig, cod, pi_env.push(arg_val), g);
                }
            }
        }
    }
}

/// Checking only adds nodes to the arena.
pub proof fn lemma_check_grows(
    f: nat,
    st: NbeState,
    sig: Map<Seq<char>, Entry>,
    ctx: Seq<ValueV>,
    env: Seq<ValueV>,
    term: TermId,
    ty: ValueV,
)
    ensures
        check_s(f, st, sig, ctx, env, term, ty) matches Some((st2, _)) ==> grows(st.terms, st2.terms),
    decreases f,
{
    if f > 0 && term@ < st.terms.len() {
        let g = (f - 1) as nat;
        match st.terms[term@ as int] {
            TermData::Ann(t, ty_term) => {
                if let Some(expected) = eval_s(g, st.terms, sig, ty_term, env) {
                    lemma_def_eq_grows(g, st, sig, env, expected, ty);
                    if let Some((st1, true)) = def_eq_s(g, st, sig, env, expected, ty) {
                        lemma_check_grows(g, st1, sig, ctx, env, t, ty);
                        if let Some((st2, _)) = check_s(g, st1, sig, ctx, env, t, ty) {
                            lemma_grows_trans(st.terms, st1.terms, st2.terms);
                        }
                    }
                }
            },
            TermData::Lam(param_ty, body) => {
                lemma_check_lam_grows(g, st, sig, ctx, env, term, param_ty, body, ty);
            },
            TermData::Pair(x, y) => {
                lemma_check_pair_grows(g, st, sig, ctx, env, term, x, y, ty);
            },
            TermData::Zero => {
                lemma_def_eq_grows(g, st, sig, env, ty, ValueV::VNat);
            },
            TermData::Succ(n) => {
                lemma_def_eq_grows(g, st, sig, env, ty, ValueV::VNat);
                if let Some((st1, true)) = def_eq_s(g, st, sig, env, ty, ValueV::VNat) {
                    lemma_check_grows(g, st1, sig, ctx, env, n, ValueV::VNat);
                    if let Some((st2, _)) = check_s(g, st1, sig, ctx, env, n, ValueV::VNat) {
                        lemma_grows_trans(st.terms, st1.terms, st2.terms);
                    }
                }
            },
            TermData::NatElim { motive, base, step, target } => {
                lemma_check_nat_elim_grows(g, st, sig, ctx, env, term, ty, motive, base, step, target);
            },
            TermData::SigmaElim { motive, elim, target } => {
                lemma_check_sigma_elim_grows(g, st, sig, ctx, env, term, ty, motive, elim, target);
            },
            _ => {
                lemma_infer_grows(g, st, sig, ctx, env, term);
                if let Some((st1, Ok(inferred))) = infer_s(g, st, sig, ctx, env, term) {
                    lemma_def_eq_grows(g, st1, sig, env, inferred, ty);
                    if let Some((st2, _)) = def_eq_s(g, st1, sig, env, inferred, ty) {
                        lemma_grows_trans(st.terms, st1.terms, st2.terms);
                    }
                }
            },
        }
    }
}

proof fn lemma_check_lam_grows(
    f: nat,
    st: NbeState,
    sig: Map<Seq<char>, Entry>,
    ctx: Seq<ValueV>,
    env: Seq<ValueV>,
    term: TermId,
    param_ty: TermId,
    body: TermId,
    ty: ValueV,
)
    ensures
        check_lam_s(f, st, sig, ctx, env, term, param_ty, body, ty) matches Some((st2, _)) ==> grows(
            st.terms,
            st2.terms,
        ),
    decreases f,
{
    if f > 0 {
        let g = (f - 1) as nat;
        if let ValueV::VPi(pi_id, pi_env) = ty {
            if let Some(Ok((dom, cod))) = parts_s(st.terms, pi_id, true) {
                if let (Some(dom_val), Some(param_val)) = (
                    eval_s(g, st.terms, sig, dom, pi_env),
                    eval_s(g, st.terms, sig, param_ty, env),
                ) {
                    lemma_def_eq_grows(g, st, sig, env, param_val, dom_val);
                    if let Some((st1, true)) = def_eq_s(g, st, sig, env, param_val, dom_val) {
                        if let Some(cod_val) = eval_s(
                            g,
                            st1.terms,
                            sig,
                            cod,
                            pi_env.push(fresh_var(pi_env.len() as usize)),
                        ) {
                            let c2 = ctx.push(dom_val);
                            let e2 = env.push(fresh_var(env.len() as usize));
                            lemma_check_grows(g, st1, sig, c2, e2, body, cod_val);
                            if let Some((st2, _)) = check_s(g, st1, sig, c2, e2, body, cod_val) {
                                lemma_grows_trans(st.terms, st1.terms, st2.terms);
                            }
                        }
                    }
                }
            }
        }
    }
}

proof fn lemma_check_pair_grows(
    f: nat,
    st: NbeState,
    sig: Map<Seq<char>, Entry>,
    ctx: Seq<ValueV>,
    env: Seq<ValueV>,
    term: TermId,
    x: TermId,
    y: TermId,
    ty: ValueV,
)
    ensures
        check_pair_s(f, st, sig, ctx, env, term, x, y, ty) matches Some((st2, _)) ==> grows(st.terms, st2.terms),
    decreases f,
{
    if f > 0 {
        let g = (f - 1) as nat;
        if let ValueV::VSigma(sig_id, env_sig) = ty {
            if let Some(Ok((a, b))) = parts_s(st.terms, sig_id, false) {
                if let Some(fst_ty) = eval_s(g, st.terms, sig, a, env_sig) {
                    lemma_check_grows(g, st, sig, ctx, env, x, fst_ty);
                    if let Some((st1, Ok(()))) = check_s(g, st, sig, ctx, env, x, fst_ty) {
                        if let Some(fst_val) = eval_s(g, st1.terms, sig, x, env) {
                            if let Some(snd_ty) = eval_s(g, st1.terms, sig, b, env_sig.push(fst_val)) {
                                lemma_check_grows(g, st1, sig, ctx, env, y, snd_ty);
                                if let Some((st2, _)) = check_s(g, st1, sig, ctx, env, y, snd_ty) {
                                    lemma_grows_trans(st.terms, st1.terms, st2.terms);
                                }
                            }
                        }
                    }
                }
            }
        }
    }
}

proof fn lemma_check_nat_elim_grows(
    f: nat,
    st: NbeState,
    sig: Map<Seq<char>, Entry>,
    ctx: Seq<ValueV>,
    env: Seq<ValueV>,
    term: TermId,
    ty: ValueV,
    motive: TermId,
    base: TermId,
    step: TermId,
    target: TermId,
)
    ensures
        check_nat_elim_s(f, st, sig, ctx, env, term, ty, motive, base, step, target) matches Some((st2, _))
            ==> grows(st.terms, st2.terms),
    decreases f,
{
    if f > 0 {
        let g = (f - 1) as nat;
        let (s1, n0) = store(st, TermData::Nat);
        if let Some((s2, lvl)) = take_fresh(s1) {
            let (s3, u) = store(s2, TermData::Type(lvl));
            let (s4, motive_pi) = store(s3, TermData::Pi(n0, u));
            assert(grows(st.terms, s4.terms));
            lemma_check_grows(g, s4, sig, ctx, env, motive, ValueV::VPi(motive_pi, env));
            if let Some((s5, r5)) = check_s(g, s4, sig, ctx, env, motive, ValueV::VPi(motive_pi, env)) {
                lemma_grows_trans(st.terms, s4.terms, s5.terms);
                if r5 is Ok {
                    let (s6, z) = store(s5, TermData::Zero);
                    let (s7, mz) = store(s6, TermData::App(motive, z));
                    assert(grows(s5.terms, s7.terms));
                    lemma_grows_trans(st.terms, s5.terms, s7.terms);
                    if let Some(base_ty) = eval_s(g, s7.terms, sig, mz, env) {
                        lemma_check_grows(g, s7, sig, ctx, env, base, base_ty);
                        if let Some((s8, r8)) = check_s(g, s7, sig, ctx, env, base, base_ty) {
                            lemma_grows_trans(st.terms, s7.terms, s8.terms);
                            if r8 is Ok {
                                let (s9, n1) = store(s8, TermData::Nat);
                                let (s10, v0) = store(s9, TermData::Var(0));
                                let (s11, mv) = store(s10, TermData::App(motive, v0));
                                let (s12, v1) = store(s11, TermData::Var(1));
                                let (s13, sv) = store(s12, TermData::Succ(v1));
                                let (s14, msv) = store(s13, TermData::App(motive, sv));
                                let (s15, inner) = store(s14, TermData::Pi(mv, msv));
                                let (s16, step_ty) = store(s15, TermData::Pi(n1, inner));
                                assert(grows(s8.terms, s12.terms));
                                assert(grows(s12.terms, s16.terms));
                                lemma_grows_trans(s8.terms, s12.terms, s16.terms);
                                lemma_grows_trans(st.terms, s8.terms, s16.terms);
                                if let Some(step_ty_val) = eval_s(g, s16.terms, sig, step_ty, env) {
                                    lemma_check_grows(g, s16, sig, ctx, env, step, step_ty_val);
                                    if let Some((s17, r17)) = check_s(g, s16, sig, ctx, env, step, step_ty_val) {
                                        lemma_grows_trans(st.terms, s16.terms, s17.terms);
                                        if r17 is Ok {
                                            lemma_check_grows(g, s17, sig, ctx, env, target, ValueV::VNat);
                                            if let Some((s18, r18)) = check_s(g, s17, sig, ctx, env, target, ValueV::VNat) {
                                                lemma_grows_trans(st.terms, s17.terms, s18.terms);
                                                if r18 is Ok {
                                                    let (s19, mt) = store(s18, TermData::App(motive, target));
                                                    lemma_grows_trans(st.terms, s18.terms, s19.terms);
                                                    if let Some(expected) = eval_s(g, s19.terms, sig, mt, env) {
                                                        lemma_def_eq_grows(g, s19, sig, env, expected, ty);
                                                        if let Some((s20, _)) = def_eq_s(g, s19, sig, env, expected, ty) {
                                                            lemma_grows_trans(st.terms, s19.terms, s20.terms);
                                                        }
                                                    }
                                                }
                                            }
                                        }
                                    }
                                }
                            }
                        }
                    }
                }
            }
        }
    }
}

proof fn lemma_check_sigma_elim_grows(
    f: nat,
    st: NbeState,
    sig: Map<Seq<char>, Entry>,
    ctx: Seq<ValueV>,
    env: Seq<ValueV>,
    term: TermId,
    ty: ValueV,
    motive: TermId,
    elim: TermId,
    target: TermId,
)
    ensures
        check_sigma_elim_s(f, st, sig, ctx, env, term, ty, motive, elim, target) matches Some((st2, _))
            ==> grows(st.terms, st2.terms),
    decreases f,
{
    if f > 0 {
        let g = (f - 1) as nat;
        lemma_infer_grows(g, st, sig, ctx, env, target);
        if let Some((st1, Ok(target_ty))) = infer_s(g, st, sig, ctx, env, target) {
            if let ValueV::VSigma(sig_id, _) = target_ty {
                if let Some(Ok((a_ty, b_ty))) = parts_s(st1.terms, sig_id, false) {
                    if let Some((st2, lvl)) = take_fresh(st1) {
                        let (st3, u) = store(st2, TermData::Type(lvl));
                        let (st4, motive_pi) = store(st3, TermData::Pi(sig_id, u));
                        assert(grows(st1.terms, st4.terms));
                        lemma_grows_trans(st.terms, st1.terms, st4.terms);
                        lemma_check_grows(g, st4, sig, ctx, env, motive, ValueV::VPi(motive_pi, env));
                        if let Some((st5, r5)) = check_s(g, st4, sig, ctx, env, motive, ValueV::VPi(motive_pi, env)) {
                            lemma_grows_trans(st.terms, st4.terms, st5.terms);
                            if r5 is Ok {
                                let (s6, v1) = store(st5, TermData::Var(1));
                                let (s7, v0) = store(s6, TermData::Var(0));
                                let (s8, pr) = store(s7, TermData::Pair(v1, v0));
                                let (s9, ap) = store(s8, TermData::App(motive, pr));
                                let (s10, inner) = store(s9, TermData::Pi(b_ty, ap));
                                let (s11, elim_ty) = store(s10, TermData::Pi(a_ty, inner));
                                assert(grows(st5.terms, s8.terms));
                                assert(grows(s8.terms, s11.terms));
                                lemma_grows_trans(st5.terms, s8.terms, s11.terms);
                                lemma_grows_trans(st.terms, st5.terms, s11.terms);
                                if let Some(elim_ty_val) = eval_s(g, s11.terms, sig, elim_ty, env) {
                                    lemma_check_grows(g, s11, sig, ctx, env, elim, elim_ty_val);
                                    if let Some((s12, r12)) = check_s(g, s11, sig, ctx, env, elim, elim_ty_val) {
                                        lemma_grows_trans(st.terms, s11.terms, s12.terms);
                                        if r12 is Ok {
                                            let (s13, mt) = store(s12, TermData::App(motive, target));
                                            lemma_grows_trans(st.terms, s12.terms, s13.terms);
                                            if let Some(expected) = eval_s(g, s13.terms, sig, mt, env) {
                                                lemma_def_eq_grows(g, s13, sig, env, expected, ty);
                                                if let Some((s14, _)) = def_eq_s(g, s13, sig, env, expected, ty) {
                                                    lemma_grows_trans(st.terms, s13.terms, s14.terms);
                                                }
                                            }
                                        }
                                    }
                                }
                            }
                        }
                    }
                }
            }
        }
    }
}

/// Inference only adds nodes to the arena.
pub proof fn lemma_infer_grows(
    f: nat,
    st: NbeState,
    sig: Map<Seq<char>, Entry>,
    ctx: Seq<ValueV>,
    env: Seq<ValueV>,
    term: TermId,
)
    ensures
        infer_s(f, st, sig, ctx, env, term) matches Some((st2, _)) ==> grows(st.terms, st2.terms),
    decreases f,
{
    if f > 0 && term@ < st.terms.len() {
        let g = (f - 1) as nat;
        match st.terms[term@ as int] {
            TermData::Pi(a, b) => lemma_infer_binder_grows(g, st, sig, ctx, env, term, a, b, true),
            TermData::Sigma(a, b) => lemma_infer_binder_grows(g, st, sig, ctx, env, term, a, b, false),
            TermData::Lam(param_ty, body) => lemma_infer_lam_grows(g, st, sig, ctx, env, param_ty, body),
            TermData::App(fx, x) => {
                lemma_infer_grows(g, st, sig, ctx, env, fx);
                if let Some((st1, Ok(fun_ty))) = infer_s(g, st, sig, ctx, env, fx) {
                    lemma_app_infer_grows(g, st1, sig, ctx, env, term, x, fun_ty);
                    if let Some((st2, _)) = app_infer_s(g, st1, sig, ctx, env, term, x, fun_ty) {
                        lemma_grows_trans(st.terms, st1.terms, st2.terms);
                    }
                }
            },
            TermData::Fst(p) => lemma_infer_proj_grows(g, st, sig, ctx, env, term, p, true),
            TermData::Snd(p) => lemma_infer_proj_grows(g, st, sig, ctx, env, term, p, false),
            TermData::Succ(n) => lemma_check_grows(g, st, sig, ctx, env, n, ValueV::VNat),
            TermData::Ann(t, ty) => {
                if let Some(expected) = eval_s(g, st.terms, sig, ty, env) {
                    lemma_check_grows(g, st, sig, ctx, env, t, expected);
                }
            },
            _ => {},
        }
    }
}

proof fn lemma_infer_binder_grows(
    f: nat,
    st: NbeState,
    sig: Map<Seq<char>, Entry>,
    ctx: Seq<ValueV>,
    env: Seq<ValueV>,
    term: TermId,
    a: TermId,
    b: TermId,
    is_pi: bool,
)
    ensures
        infer_binder_s(f, st, sig, ctx, env, term, a, b, is_pi) matches Some((st2, _)) ==> grows(
            st.terms,
            st2.terms,
        ),
    decreases f,
{
    if f > 0 {
        let g = (f - 1) as nat;
        let new_env = env.push(fresh_var(env.len() as usize));
        lemma_infer_grows(g, st, sig, ctx, env, a);
        if let Some((st1, Ok(a_ty))) = infer_s(g, st, sig, ctx, env, a) {
            if let ValueV::VType(_) = a_ty {
                if let Some(dom) = eval_s(g, st1.terms, sig, a, env) {
                    lemma_infer_grows(g, st1, sig, ctx.push(dom), new_env, b);
                    if let Some((st2, _)) = infer_s(g, st1, sig, ctx.push(dom), new_env, b) {
                        lemma_grows_trans(st.terms, st1.terms, st2.terms);
                    }
                }
            } else if is_pi {
                lemma_infer_grows(g, st1, sig, ctx.push(a_ty), new_env, b);
                if let Some((st2, _)) = infer_s(g, st1, sig, ctx.push(a_ty), new_env, b) {
                    lemma_grows_trans(st.terms, st1.terms, st2.terms);
                    let (st3, _) = store(st2, TermData::Pi(a, b));
                    lemma_grows_trans(st.terms, st2.terms, st3.terms);
                }
            }
        }
    }
}

proof fn lemma_infer_lam_grows(
    f: nat,
    st: NbeState,
    sig: Map<Seq<char>, Entry>,
    ctx: Seq<ValueV>,
    env: Seq<ValueV>,
    param_ty: TermId,
    body: TermId,
)
    ensures
        infer_lam_s(f, st, sig, ctx, env, param_ty, body) matches Some((st2, _)) ==> grows(st.terms, st2.terms),
    decreases f,
{
    if f > 0 {
        let g = (f - 1) as nat;
        let new_env = env.push(fresh_var(env.len() as usize));
        if let Some(dom) = eval_s(g, st.terms, sig, param_ty, env) {
            lemma_infer_grows(g, st, sig, ctx.push(dom), new_env, body);
            if let Some((st1, Ok(cod_val))) = infer_s(g, st, sig, ctx.push(dom), new_env, body) {
                lemma_quote_grows(g, st1.terms, sig, cod_val, new_env.len() as usize);
                if let Some((terms2, cod_term)) = quote_s(g, st1.terms, sig, cod_val, new_env.len() as usize) {
                    lemma_grows_trans(st.terms, st1.terms, terms2);
                    let terms3 = terms2.push(TermData::Pi(param_ty, cod_term));
                    lemma_grows_trans(st.terms, terms2, terms3);
                }
            }
        }
    }
}

proof fn lemma_infer_proj_grows(
    f: nat,
    st: NbeState,
    sig: Map<Seq<char>, Entry>,
    ctx: Seq<ValueV>,
    env: Seq<ValueV>,
    term: TermId,
    p: TermId,
    is_fst: bool,
)
    ensures
        infer_proj_s(f, st, sig, ctx, env, term, p, is_fst) matches Some((st2, _)) ==> grows(st.terms, st2.terms),
    decreases f,
{
    if f > 0 {
        lemma_infer_grows((f - 1) as nat, st, sig, ctx, env, p);
    }
}

proof fn lemma_app_infer_grows(
    f: nat,
    st: NbeState,
    sig: Map<Seq<char>, Entry>,
    ctx: Seq<ValueV>,
    env: Seq<ValueV>,
    term: TermId,
    x: TermId,
    fun_ty: ValueV,
)
    ensures
        app_infer_s(f, st, sig, ctx, env, term, x, fun_ty) matches Some((st2, _)) ==> grows(st.terms, st2.terms),
    decreases f,
{
    if f > 0 {
        let g = (f - 1) as nat;
        if let Some((pi_id, pi_env)) = pi_of(fun_ty) {
            if let Some(Ok((dom, cod))) = parts_s(st.terms, pi_id, true) {
                if let Some(dom_val) = eval_s(g, st.terms, sig, dom, pi_env) {
                    lemma_check_grows(g, st, sig, ctx, env, x, dom_val);
                }
            }
        }
    }
}

/// Checking a ℕ-eliminator against a type succeeds only if the type is
/// definitionally equal to the value of `motive target`: the check reaches a
/// state, extending the arena, holding the application `motive target`, whose
/// value definitional equality finds equal to the type (for an arena that still
/// fits in memory after the check).
pub proof fn lemma_check_nat_elim_type(
    st: NbeState,
    sig: Map<Seq<char>, Entry>,
    ctx: Seq<ValueV>,
    env: Seq<ValueV>,
    term: TermId,
    ty: ValueV,
)
    requires
        term@ < st.terms.len(),
        st.terms[term@ as int] is NatElim,
        checks(st, sig, ctx, env, term, ty),
        check_outcome(st, sig, ctx, env, term, ty).1 is Ok,
        check_outcome(st, sig, ctx, env, term, ty).0.terms.len() <= usize::MAX,
    ensures
        ({
            let motive = st.terms[term@ as int]->NatElim_motive;
            let target = st.terms[term@ as int]->NatElim_target;
            exists|s: NbeState, mt: TermId|
                #![trigger crate::nbe::eval_result(s.terms, sig, mt, env)]
                {
                    let v = crate::nbe::eval_result(s.terms, sig, mt, env);
                    &&& grows(st.terms, s.terms)
                    &&& mt@ < s.terms.len()
                    &&& s.terms[mt@ as int] == TermData::App(motive, target)
                    &&& crate::nbe::evaluates(s.terms, sig, mt, env)
                    &&& crate::nbe::decides_def_eq(s, sig, env, v, ty)
                    &&& crate::nbe::def_eq_result(s, sig, env, v, ty).1
                }
        }),
{
    broadcast use crate::term::group_term_id;

    let motive = st.terms[term@ as int]->NatElim_motive;
    let base = st.terms[term@ as int]->NatElim_base;
    let step = st.terms[term@ as int]->NatElim_step;
    let target = st.terms[term@ as int]->NatElim_target;
    let f = choose|f: nat| #[trigger] check_s(f, st, sig, ctx, env, term, ty) is Some;
    assert(check_s(f, st, sig, ctx, env, term, ty) is Some);
    lemma_check_result(st, sig, ctx, env, term, ty, f);
    let g1 = (f - 1) as nat;
    assert(check_s(f, st, sig, ctx, env, term, ty) == check_nat_elim_s(
        g1, st, sig, ctx, env, term, ty, motive, base, step, target,
    ));
    let g = (g1 - 1) as nat;
    let (s1, n0) = store(st, TermData::Nat);
    let (s2, lvl) = take_fresh(s1).unwrap();
    let (s3, u) = store(s2, TermData::Type(lvl));
    let (s4, motive_pi) = store(s3, TermData::Pi(n0, u));
    assert(grows(st.terms, s4.terms));
    let (s5, r5) = check_s(g, s4, sig, ctx, env, motive, ValueV::VPi(motive_pi, env)).unwrap();
    assert(r5 is Ok);
    lemma_check_grows(g, s4, sig, ctx, env, motive, ValueV::VPi(motive_pi, env));
    lemma_grows_trans(st.terms, s4.terms, s5.terms);
    let (s6, z) = store(s5, TermData::Zero);
    let (s7, mz) = store(s6, TermData::App(motive, z));
    assert(grows(s5.terms, s7.terms));
    lemma_grows_trans(st.terms, s5.terms, s7.terms);
    let base_ty = eval_s(g, s7.terms, sig, mz, env).unwrap();
    let (s8, r8) = check_s(g, s7, sig, ctx, env, base, base_ty).unwrap();
    assert(r8 is Ok);
    lemma_check_grows(g, s7, sig, ctx, env, base, base_ty);
    lemma_grows_trans(st.terms, s7.terms, s8.terms);
    let (s9, n1) = store(s8, TermData::Nat);
    let (s10, v0) = store(s9, TermData::Var(0));
    let (s11, mv) = store(s10, TermData::App(motive, v0));
    let (s12, v1) = store(s11, TermData::Var(1));
    let (s13, sv) = store(s12, TermData::Succ(v1));
    let (s14, msv) = store(s13, TermData::App(motive, sv));
    let (s15, inner) = store(s14, TermData::Pi(mv, msv));
    let (s16, step_ty) = store(s15, TermData::Pi(n1, inner));
    assert(grows(s8.terms, s12.terms));
    assert(grows(s12.terms, s16.terms));
    lemma_grows_trans(s8.terms, s12.terms, s16.terms);
    lemma_grows_trans(st.terms, s8.terms, s16.terms);
    let step_ty_val = eval_s(g, s16.terms, sig, step_ty, env).unwrap();
    let (s17, r17) = check_s(g, s16, sig, ctx, env, step, step_ty_val).unwrap();
    assert(r17 is Ok);
    lemma_check_grows(g, s16, sig, ctx, env, step, step_ty_val);
    lemma_grows_trans(st.terms, s16.terms, s17.terms);
    let (s18, r18) = check_s(g, s17, sig, ctx, env, target, ValueV::VNat).unwrap();
    assert(r18 is Ok);
    lemma_check_grows(g, s17, sig, ctx, env, target, ValueV::VNat);
    lemma_grows_trans(st.terms, s17.terms, s18.terms);
    let (s19, mt) = store(s18, TermData::App(motive, target));
    lemma_grows_trans(st.terms, s18.terms, s19.terms);
    let expected = eval_s(g, s19.terms, sig, mt, env).unwrap();
    let (s20, b20) = def_eq_s(g, s19, sig, env, expected, ty).unwrap();
    assert(b20);
    lemma_def_eq_grows(g, s19, sig, env, expected, ty);
    assert(s20 == check_outcome(st, sig, ctx, env, term, ty).0);
    assert(mt@ == s18.terms.len());
    assert(s19.terms[mt@ as int] == TermData::App(motive, target));
    crate::nbe::lemma_eval_result(s19.terms, sig, mt, env, g);
    crate::nbe::lemma_def_eq_result(s19, sig, env, expected, ty, g);
    assert(crate::nbe::eval_result(s19.terms, sig, mt, env) == expected);
}

/// Checking a Σ-eliminator against a type succeeds only if the target's type is
/// a Σ-type and the type checked against is definitionally equal to the value
/// of `motive target`: the check reaches a state, extending the arena, holding
/// the application `motive target`, whose value definitional equality finds
/// equal to the type (for an arena that still fits in memory after the check).
pub proof fn lemma_check_sigma_elim_type(
    st: NbeState,
    sig: Map<Seq<char>, Entry>,
    ctx: Seq<ValueV>,
    env: Seq<ValueV>,
    term: TermId,
    ty: ValueV,
)
    requires
        term@ < st.terms.len(),
        st.terms[term@ as int] is SigmaElim,
        checks(st, sig, ctx, env, term, ty),
        check_outcome(st, sig, ctx, env, term, ty).1 is Ok,
        check_outcome(st, sig, ctx, env, term, ty).0.terms.len() <= usize::MAX,
    ensures
        ({
            let motive = st.terms[term@ as int]->SigmaElim_motive;
            let target = st.terms[term@ as int]->SigmaElim_target;
            &&& infers(st, sig, ctx, env, target)
            &&& infer_outcome(st, sig, ctx, env, target).1 matches Ok(ValueV::VSigma(_, _))
            &&& exists|s: NbeState, mt: TermId|
                #![trigger crate::nbe::eval_result(s.terms, sig, mt, env)]
                {
                    let v = crate::nbe::eval_result(s.terms, sig, mt, env);
                    &&& grows(st.terms, s.terms)
                    &&& mt@ < s.terms.len()
                    &&& s.terms[mt@ as int] == TermData::App(motive, target)
                    &&& crate::nbe::evaluates(s.terms, sig, mt, env)
                    &&& crate::nbe::decides_def_eq(s, sig, env, v, ty)
                    &&& crate::nbe::def_eq_result(s, sig, env, v, ty).1
                }
        }),
{
    broadcast use crate::term::group_term_id;

    let motive = st.terms[term@ as int]->SigmaElim_motive;
    let elim = st.terms[term@ as int]->SigmaElim_elim;
    let target = st.terms[term@ as int]->SigmaElim_target;
    let f = choose|f: nat| #[trigger] check_s(f, st, sig, ctx, env, term, ty) is Some;
    assert(check_s(f, st, sig, ctx, env, term, ty) is Some);
    lemma_check_result(st, sig, ctx, env, term, ty, f);
    let g1 = (f - 1) as nat;
    assert(check_s(f, st, sig, ctx, env, term, ty) == check_sigma_elim_s(
        g1, st, sig, ctx, env, term, ty, motive, elim, target,
    ));
    let g = (g1 - 1) as nat;
    let (st1, r1) = infer_s(g, st, sig, ctx, env, target).unwrap();
    lemma_infer_result(st, sig, ctx, env, target, g);
    lemma_infer_grows(g, st, sig, ctx, env, target);
    let target_ty = r1->Ok_0;
    let sig_id = target_ty->VSigma_0;
    let (a_ty, b_ty) = parts_s(st1.terms, sig_id, false).unwrap()->Ok_0;
    let (st2, lvl) = take_fresh(st1).unwrap();
    let (st3, u) = store(st2, TermData::Type(lvl));
    let (st4, motive_pi) = store(st3, TermData::Pi(sig_id, u));
    assert(grows(st1.terms, st4.terms));
    lemma_grows_trans(st.terms, st1.terms, st4.terms);
    let (st5, r5) = check_s(g, st4, sig, ctx, env, motive, ValueV::VPi(motive_pi, env)).unwrap();
    assert(r5 is Ok);
    lemma_check_grows(g, st4, sig, ctx, env, motive, ValueV::VPi(motive_pi, env));
    lemma_grows_trans(st.terms, st4.terms, st5.terms);
    let (s6, v1) = store(st5, TermData::Var(1));
    let (s7, v0) = store(s6, TermData::Var(0));
    let (s8, pr) = store(s7, TermData::Pair(v1, v0));
    let (s9, ap) = store(s8, TermData::App(motive, pr));
    let (s10, inner) = store(s9, TermData::Pi(b_ty, ap));
    let (s11, elim_ty) = store(s10, TermData::Pi(a_ty, inner));
    assert(grows(st5.terms, s8.terms));
    assert(grows(s8.terms, s11.terms));
    lemma_grows_trans(st5.terms, s8.terms, s11.terms);
    lemma_grows_trans(st.terms, st5.terms, s11.terms);
    let elim_ty_val = eval_s(g, s11.terms, sig, elim_ty, env).unwrap();
    let (s12, r12) = check_s(g, s11, sig, ctx, env, elim, elim_ty_val).unwrap();
    assert(r12 is Ok);
    lemma_check_grows(g, s11, sig, ctx, env, elim, elim_ty_val);
    lemma_grows_trans(st.terms, s11.terms, s12.terms);
    let (s13, mt) = store(s12, TermData::App(motive, target));
    lemma_grows_trans(st.terms, s12.terms, s13.terms);
    let expected = eval_s(g, s13.terms, sig, mt, env).unwrap();
    let (s14, b14) = def_eq_s(g, s13, sig, env, expected, ty).unwrap();
    assert(b14);
    lemma_def_eq_grows(g, s13, sig, env, expected, ty);
    assert(s14 == check_outcome(st, sig, ctx, env, term, ty).0);
    assert(mt@ == s12.terms.len());
    assert(s13.terms[mt@ as int] == TermData::App(motive, target));
    crate::nbe::lemma_eval_result(s13.terms, sig, mt, env, g);
    crate::nbe::lemma_def_eq_result(s13, sig, env, expected, ty, g);
    assert(crate::nbe::eval_result(s13.terms, sig, mt, env) == expected);
}

/// Checking an annotated term: the annotation's value must be definitionally
/// equal to the type checked against, and then the term is checked against that
/// type; otherwise a mismatch between the two is reported.
pub proof fn lemma_check_annotation(
    st: NbeState,
    sig: Map<Seq<char>, Entry>,
    ctx: Seq<ValueV>,
    env: Seq<ValueV>,
    term: TermId,
    ty: ValueV,
)
    requires
        term@ < st.terms.len(),
        st.terms[term@ as int] is Ann,
        checks(st, sig, ctx, env, term, ty),
    ensures
        ({
            let t = st.terms[term@ as int]->Ann_0;
            let ann = st.terms[term@ as int]->Ann_1;
            let expected = crate::nbe::eval_result(st.terms, sig, ann, env);
            &&& crate::nbe::evaluates(st.terms, sig, ann, env)
            &&& crate::nbe::decides_def_eq(st, sig, env, expected, ty)
            &&& match crate::nbe::def_eq_result(st, sig, env, expected, ty) {
                (st1, true) => {
                    &&& checks(st1, sig, ctx, env, t, ty)
                    &&& check_outcome(st, sig, ctx, env, term, ty) == check_outcome(st1, sig, ctx, env, t, ty)
                },
                (st1, false) => check_outcome(st, sig, ctx, env, term, ty) == (
                    st1,
                    Err::<(), TyErrorV>(mismatch(st1.terms, term, debug_value(ty), debug_value(expected))),
                ),
            }
        }),
{
    let t = st.terms[term@ as int]->Ann_0;
    let ann = st.terms[term@ as int]->Ann_1;
    let f = choose|f: nat| #[trigger] check_s(f, st, sig, ctx, env, term, ty) is Some;
    assert(check_s(f, st, sig, ctx, env, term, ty) is Some);
    lemma_check_result(st, sig, ctx, env, term, ty, f);
    let g = (f - 1) as nat;
    assert(eval_s(g, st.terms, sig, ann, env) is Some);
    crate::nbe::lemma_eval_result(st.terms, sig, ann, env, g);
    let expected = eval_s(g, st.terms, sig, ann, env).unwrap();
    assert(def_eq_s(g, st, sig, env, expected, ty) is Some);
    crate::nbe::lemma_def_eq_result(st, sig, env, expected, ty, g);
    if let Some((st1, true)) = def_eq_s(g, st, sig, env, expected, ty) {
        assert(check_s(g, st1, sig, ctx, env, t, ty) is Some);
        lemma_check_result(st1, sig, ctx, env, t, ty, g);
    }
}

/// Checking `Zero` or a successor: the type must be definitionally equal to
/// `Nat` (else a mismatch with "Nat" is reported), and a successor's argument
/// is then checked against `Nat`.
pub proof fn lemma_check_numeral_forms(
    st: NbeState,
    sig: Map<Seq<char>, Entry>,
    ctx: Seq<ValueV>,
    env: Seq<ValueV>,
    term: TermId,
    ty: ValueV,
)
    requires
        term@ < st.terms.len(),
        st.terms[term@ as int] is Zero || st.terms[term@ as int] is Succ,
        checks(st, sig, ctx, env, term, ty),
    ensures
        crate::nbe::decides_def_eq(st, sig, env, ty, ValueV::VNat),
        match crate::nbe::def_eq_result(st, sig, env, ty, ValueV::VNat) {
            (st1, true) => match st.terms[term@ as int] {
                TermData::Succ(n) => {
                    &&& checks(st1, sig, ctx, env, n, ValueV::VNat)
                    &&& check_outcome(st, sig, ctx, env, term, ty) == check_outcome(st1, sig, ctx, env, n, ValueV::VNat)
                },
                _ => check_outcome(st, sig, ctx, env, term, ty) == (st1, Ok::<(), TyErrorV>(())),
            },
            (st1, false) => check_outcome(st, sig, ctx, env, term, ty) == (
                st1,
                Err::<(), TyErrorV>(mismatch(st1.terms, term, debug_value(ty), "Nat"@)),
            ),
        },
{
    let f = choose|f: nat| #[trigger] check_s(f, st, sig, ctx, env, term, ty) is Some;
    assert(check_s(f, st, sig, ctx, env, term, ty) is Some);
    lemma_check_result(st, sig, ctx, env, term, ty, f);
    let g = (f - 1) as nat;
    assert(def_eq_s(g, st, sig, env, ty, ValueV::VNat) is Some);
    crate::nbe::lemma_def_eq_result(st, sig, env, ty, ValueV::VNat, g);
    if let TermData::Succ(n) = st.terms[term@ as int] {
        if let Some((st1, true)) = def_eq_s(g, st, sig, env, ty, ValueV::VNat) {
            assert(check_s(g, st1, sig, ctx, env, n, ValueV::VNat) is Some);
            lemma_check_result(st1, sig, ctx, env, n, ValueV::VNat, g);
        }
    }
}

/// A term that is not an introduction form, an annotation or an eliminator is
/// checked by inferring its type: it checks exactly when the inferred type is
/// definitionally equal to the expected one, and an inference error is the
/// check's error.
pub proof fn lemma_check_by_inference(
    st: NbeState,
    sig: Map<Seq<char>, Entry>,
    ctx: Seq<ValueV>,
    env: Seq<ValueV>,
    term: TermId,
    ty: ValueV,
)
    requires
        term@ < st.terms.len(),
        !(st.terms[term@ as int] is Ann || st.terms[term@ as int] is Lam || st.terms[term@ as int] is Pair
            || st.terms[term@ as int] is Zero || st.terms[term@ as int] is Succ
            || st.terms[term@ as int] is NatElim || st.terms[term@ as int] is SigmaElim),
        checks(st, sig, ctx, env, term, ty),
    ensures
        infers(st, sig, ctx, env, term),
        match infer_outcome(st, sig, ctx, env, term) {
            (st1, Err(e)) => check_outcome(st, sig, ctx, env, term, ty) == (st1, Err::<(), TyErrorV>(e)),
            (st1, Ok(inferred)) => {
                &&& crate::nbe::decides_def_eq(st1, sig, env, inferred, ty)
                &&& check_outcome(st, sig, ctx, env, term, ty).0 == crate::nbe::def_eq_result(
                    st1,
                    sig,
                    env,
                    inferred,
                    ty,
                ).0
                &&& (check_outcome(st, sig, ctx, env, term, ty).1 is Ok <==> crate::nbe::def_eq_result(
                    st1,
                    sig,
                    env,
                    inferred,
                    ty,
                ).1)
            },
        },
{
    let f = choose|f: nat| #[trigger] check_s(f, st, sig, ctx, env, term, ty) is Some;
    assert(check_s(f, st, sig, ctx, env, term, ty) is Some);
    lemma_check_result(st, sig, ctx, env, term, ty, f);
    let g = (f - 1) as nat;
    assert(infer_s(g, st, sig, ctx, env, term) is Some);
    lemma_infer_result(st, sig, ctx, env, term, g);
    if let Some((st1, Ok(inferred))) = infer_s(g, st, sig, ctx, env, term) {
        assert(def_eq_s(g, st1, sig, env, inferred, ty) is Some);
        crate::nbe::lemma_def_eq_result(st1, sig, env, inferred, ty, g);
    }
}

/// Checking a λ-term: the type must be a Π-type whose domain is definitionally
/// equal to the annotated parameter type, and the body is then checked, under a
/// variable of the domain, against the codomain; a non-Π type is a mismatch
/// with "Π-type".
pub proof fn lemma_check_lambda(
    st: NbeState,
    sig: Map<Seq<char>, Entry>,
    ctx: Seq<ValueV>,
    env: Seq<ValueV>,
    term: TermId,
    ty: ValueV,
)
    requires
        term@ < st.terms.len(),
        st.terms[term@ as int] is Lam,
        checks(st, sig, ctx, env, term, ty),
    ensures
        ({
            let param_ty = st.terms[term@ as int]->Lam_0;
            let body = st.terms[term@ as int]->Lam_1;
            match ty {
                ValueV::VPi(pi_id, pi_env) => match binder_parts(st.terms, pi_id, true) {
                    Some((dom, cod)) => {
                        let dom_val = crate::nbe::eval_result(st.terms, sig, dom, pi_env);
                        let param_val = crate::nbe::eval_result(st.terms, sig, param_ty, env);
                        &&& crate::nbe::evaluates(st.terms, sig, dom, pi_env)
                        &&& crate::nbe::evaluates(st.terms, sig, param_ty, env)
                        &&& crate::nbe::decides_def_eq(st, sig, env, param_val, dom_val)
                        &&& match crate::nbe::def_eq_result(st, sig, env, param_val, dom_val) {
                            (st1, true) => {
                                let cod_env = pi_env.push(fresh_var(pi_env.len() as usize));
                                let cod_val = crate::nbe::eval_result(st1.terms, sig, cod, cod_env);
                                let ctx1 = ctx.push(dom_val);
                                let env1 = env.push(fresh_var(env.len() as usize));
                                &&& crate::nbe::evaluates(st1.terms, sig, cod, cod_env)
                                &&& checks(st1, sig, ctx1, env1, body, cod_val)
                                &&& check_outcome(st, sig, ctx, env, term, ty) == check_outcome(
                                    st1,
                                    sig,
                                    ctx1,
                                    env1,
                                    body,
                                    cod_val,
                                )
                            },
                            (st1, false) => {
                                &&& check_outcome(st, sig, ctx, env, term, ty).0 == st1
                                &&& check_outcome(st, sig, ctx, env, term, ty).1 is Err
                            },
                        }
                    },
                    None => check_outcome(st, sig, ctx, env, term, ty).1 is Err,
                },
                _ => check_outcome(st, sig, ctx, env, term, ty) == (
                    st,
                    Err::<(), TyErrorV>(mismatch(st.terms, term, "Π-type"@, debug_value(ty))),
                ),
            }
        }),
{
    let param_ty = st.terms[term@ as int]->Lam_0;
    let body = st.terms[term@ as int]->Lam_1;
    let f = choose|f: nat| #[trigger] check_s(f, st, sig, ctx, env, term, ty) is Some;
    assert(check_s(f, st, sig, ctx, env, term, ty) is Some);
    lemma_check_result(st, sig, ctx, env, term, ty, f);
    let g1 = (f - 1) as nat;
    assert(check_s(f, st, sig, ctx, env, term, ty) == check_lam_s(g1, st, sig, ctx, env, term, param_ty, body, ty));
    let g = (g1 - 1) as nat;
    if let ValueV::VPi(pi_id, pi_env) = ty {
        if let Some((dom, cod)) = binder_parts(st.terms, pi_id, true) {
            assert(eval_s(g, st.terms, sig, dom, pi_env) is Some);
            assert(eval_s(g, st.terms, sig, param_ty, env) is Some);
            crate::nbe::lemma_eval_result(st.terms, sig, dom, pi_env, g);
            crate::nbe::lemma_eval_result(st.terms, sig, param_ty, env, g);
            let dom_val = eval_s(g, st.terms, sig, dom, pi_env).unwrap();
            let param_val = eval_s(g, st.terms, sig, param_ty, env).unwrap();
            assert(def_eq_s(g, st, sig, env, param_val, dom_val) is Some);
            crate::nbe::lemma_def_eq_result(st, sig, env, param_val, dom_val, g);
            if let Some((st1, true)) = def_eq_s(g, st, sig, env, param_val, dom_val) {
                let cod_env = pi_env.push(fresh_var(pi_env.len() as usize));
                assert(eval_s(g, st1.terms, sig, cod, cod_env) is Some);
                crate::nbe::lemma_eval_result(st1.terms, sig, cod, cod_env, g);
                let cod_val = eval_s(g, st1.terms, sig, cod, cod_env).unwrap();
                let ctx1 = ctx.push(dom_val);
                let env1 = env.push(fresh_var(env.len() as usize));
                assert(check_s(g, st1, sig, ctx1, env1, body, cod_val) is Some);
                lemma_check_result(st1, sig, ctx1, env1, body, cod_val, g);
            }
        }
    }
}

/// The types of the basic forms: a variable has the type the context gives it;
/// `Zero` has type `Nat`; a successor has type `Nat` exactly when its argument
/// checks against `Nat`; `Nat` lives in a fresh universe; `Type l` lives in a
/// fresh universe `u` with the constraint `l <= u + 1` recorded. Only the
/// universe forms change the constraints, and none changes the arena except
/// through the successor's check.
pub proof fn lemma_infer_basic_forms(
    st: NbeState,
    sig: Map<Seq<char>, Entry>,
    ctx: Seq<ValueV>,
    env: Seq<ValueV>,
    term: TermId,
)
    requires
        term@ < st.terms.len(),
        infers(st, sig, ctx, env, term),
    ensures
        match st.terms[term@ as int] {
            TermData::Var(i) => {
                &&& i < ctx.len()
                &&& infer_outcome(st, sig, ctx, env, term) == (st, Ok::<ValueV, TyErrorV>(ctx[ctx.len() - 1 - i]))
            },
            TermData::Zero => infer_outcome(st, sig, ctx, env, term) == (st, Ok::<ValueV, TyErrorV>(ValueV::VNat)),
            TermData::Succ(n) => {
                &&& checks(st, sig, ctx, env, n, ValueV::VNat)
                &&& infer_outcome(st, sig, ctx, env, term) == match check_outcome(st, sig, ctx, env, n, ValueV::VNat) {
                    (st1, Ok(())) => (st1, Ok::<ValueV, TyErrorV>(ValueV::VNat)),
                    (st1, Err(e)) => (st1, Err(e)),
                }
            },
            TermData::Nat => {
                &&& st.levels.fresh < usize::MAX
                &&& infer_outcome(st, sig, ctx, env, term) == (
                    NbeState { levels: fresh_s(st.levels), ..st },
                    Ok::<ValueV, TyErrorV>(ValueV::VType(LevelVar(st.levels.fresh))),
                )
            },
            TermData::Type(l) => {
                let u = LevelVar(st.levels.fresh);
                &&& st.levels.fresh < usize::MAX
                &&& infer_outcome(st, sig, ctx, env, term) == (
                    NbeState {
                        levels: push_leq(fresh_s(st.levels), Level::Var(l), Level::Succ(Box::new(Level::Var(u)))),
                        ..st
                    },
                    Ok::<ValueV, TyErrorV>(ValueV::VType(u)),
                )
            },
            _ => true,
        },
{
    let f = choose|f: nat| #[trigger] infer_s(f, st, sig, ctx, env, term) is Some;
    assert(infer_s(f, st, sig, ctx, env, term) is Some);
    lemma_infer_result(st, sig, ctx, env, term, f);
    let g = (f - 1) as nat;
    if let TermData::Succ(n) = st.terms[term@ as int] {
        assert(check_s(g, st, sig, ctx, env, n, ValueV::VNat) is Some);
        lemma_check_result(st, sig, ctx, env, n, ValueV::VNat, g);
    }
}

/// The types of projections: the argument's type must be a Σ-type; the first
/// projection has the type of the first component, and the second projection of
/// a pair has the type of the second component at the pair's first component.
pub proof fn lemma_infer_projection(
    st: NbeState,
    sig: Map<Seq<char>, Entry>,
    ctx: Seq<ValueV>,
    env: Seq<ValueV>,
    term: TermId,
)
    requires
        term@ < st.terms.len(),
        st.terms[term@ as int] is Fst || st.terms[term@ as int] is Snd,
        infers(st, sig, ctx, env, term),
    ensures
        ({
            let p = match st.terms[term@ as int] {
                TermData::Fst(p) => p,
                TermData::Snd(p) => p,
                _ => term,
            };
            &&& infers(st, sig, ctx, env, p)
            &&& match infer_outcome(st, sig, ctx, env, p) {
                (st1, Err(e)) => infer_outcome(st, sig, ctx, env, term) == (st1, Err::<ValueV, TyErrorV>(e)),
                (st1, Ok(ValueV::VSigma(sig_id, env_sig))) => match binder_parts(st1.terms, sig_id, false) {
                    Some((a, b)) => if st.terms[term@ as int] is Fst {
                        &&& crate::nbe::evaluates(st1.terms, sig, a, env_sig)
                        &&& infer_outcome(st, sig, ctx, env, term) == (
                            st1,
                            Ok::<ValueV, TyErrorV>(crate::nbe::eval_result(st1.terms, sig, a, env_sig)),
                        )
                    } else {
                        let pv = crate::nbe::eval_result(st1.terms, sig, p, env);
                        &&& crate::nbe::evaluates(st1.terms, sig, p, env)
                        &&& pv is VPair ==> {
                            &&& crate::nbe::evaluates(st1.terms, sig, b, env_sig.push(*pv->VPair_0))
                            &&& infer_outcome(st, sig, ctx, env, term) == (
                                st1,
                                Ok::<ValueV, TyErrorV>(
                                    crate::nbe::eval_result(st1.terms, sig, b, env_sig.push(*pv->VPair_0)),
                                ),
                            )
                        }
                        &&& !(pv is VPair) ==> infer_outcome(st, sig, ctx, env, term).1 is Err
                    },
                    None => infer_outcome(st, sig, ctx, env, term).1 is Err,
                },
                (st1, Ok(other)) => infer_outcome(st, sig, ctx, env, term) == (
                    st1,
                    Err::<ValueV, TyErrorV>(mismatch(st1.terms, term, "Σ-type"@, debug_value(other))),
                ),
            }
        }),
{
    let is_fst = st.terms[term@ as int] is Fst;
    let p = match st.terms[term@ as int] {
        TermData::Fst(p) => p,
        TermData::Snd(p) => p,
        _ => term,
    };
    let f = choose|f: nat| #[trigger] infer_s(f, st, sig, ctx, env, term) is Some;
    assert(infer_s(f, st, sig, ctx, env, term) is Some);
    lemma_infer_result(st, sig, ctx, env, term, f);
    let g1 = (f - 1) as nat;
    assert(infer_s(f, st, sig, ctx, env, term) == infer_proj_s(g1, st, sig, ctx, env, term, p, is_fst));
    let g = (g1 - 1) as nat;
    assert(infer_s(g, st, sig, ctx, env, p) is Some);
    lemma_infer_result(st, sig, ctx, env, p, g);
    if let Some((st1, Ok(ValueV::VSigma(sig_id, env_sig)))) = infer_s(g, st, sig, ctx, env, p) {
        if let Some((a, b)) = binder_parts(st1.terms, sig_id, false) {
            if is_fst {
                assert(eval_s(g, st1.terms, sig, a, env_sig) is Some);
                crate::nbe::lemma_eval_result(st1.terms, sig, a, env_sig, g);
            } else {
                assert(eval_s(g, st1.terms, sig, p, env) is Some);
                crate::nbe::lemma_eval_result(st1.terms, sig, p, env, g);
                let pv = eval_s(g, st1.terms, sig, p, env).unwrap();
                if pv is VPair {
                    assert(eval_s(g, st1.terms, sig, b, env_sig.push(*pv->VPair_0)) is Some);
                    crate::nbe::lemma_eval_result(st1.terms, sig, b, env_sig.push(*pv->VPair_0), g);
                }
            }
        }
    }
}

} // verus!

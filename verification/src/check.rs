use crate::arena::Arena;
use crate::context::Context;
use crate::error::{TyError, TyErrorV, unit_result, value_display, value_result};
use crate::level::{ConstraintSet, collects, Level, LevelError, LevelVar, LevelsView, numerals, satisfies, weight};
use crate::nbe::{NbeState, grows};
use crate::norm::{def_eq_values, eval_in, quote_at};
use crate::signature::{Entry, Signature};
use crate::term::{TermData, TermId, children_below};
use crate::typing::{
    check_outcome, checks, infer_outcome, infers, app_infer_s, check_lam_s, check_nat_elim_s, check_pair_s, check_s, check_sigma_elim_s,
    infer_binder_s, infer_lam_s, infer_proj_s, infer_s, lookup_const_s, parts_s,
};
use crate::value::{Env, Neutral, Value, copy_env, copy_value};
use vstd::prelude::*;

verus! {

broadcast use crate::value::group_value_view, crate::term::group_term_id;

/// The checker state formed by an arena and a constraint set.
pub open spec fn state(a: Seq<TermData>, l: LevelsView) -> NbeState {
    NbeState { terms: a, levels: l }
}

/// Solves the universe constraints collected so far.
pub fn solve_levels(levels: &mut ConstraintSet) -> (r: Result<(), LevelError>)
    requires
        weight(old(levels)@.assign, old(levels)@.leq) * (2 * old(levels)@.leq.len() + 2) <= usize::MAX / 4,
        old(levels)@.leq.len() < usize::MAX / 4,
    ensures
        r is Ok ==> exists|rho: Map<usize, nat>| {
            &&& satisfies(rho, old(levels)@.assign, old(levels)@.leq)
            &&& final(levels)@.assign == old(levels)@.assign.union_prefer_right(numerals(rho))
        },
        r is Ok ==> final(levels)@.leq.len() == 0 && final(levels)@.fresh == old(levels)@.fresh,
        r is Err ==> final(levels)@ == old(levels)@,
        r is Err ==> !exists|rho: Map<usize, nat>| satisfies(rho, old(levels)@.assign, old(levels)@.leq),
{
    levels.solve()
}

/// Forgets all universe constraints and variables.
pub fn reset_levels(levels: &mut ConstraintSet)
    ensures
        final(levels)@.fresh == 0,
        final(levels)@.assign == Map::<usize, Level>::empty(),
        final(levels)@.leq == Seq::<(Level, Level)>::empty(),
{
    *levels = ConstraintSet::new();
}

/// A universe variable not handed out before.
pub fn fresh_level(levels: &mut ConstraintSet) -> (v: LevelVar)
    requires
        old(levels)@.fresh < usize::MAX,
    ensures
        v == LevelVar(old(levels)@.fresh),
        final(levels)@ == crate::level::fresh_s(old(levels)@),
{
    levels.fresh()
}

fn pi_parts(arena: &Arena, pi_id: TermId) -> (r: Result<(TermId, TermId), TyError>)
    requires
        pi_id@ < arena@.len(),
    ensures
        r matches Ok((a, b)) ==> a@ < pi_id@ && b@ < pi_id@,
        parts_s(arena@, pi_id, true) == Some(
            match r {
                Ok(p) => Ok(p),
                Err(e) => Err(e@),
            },
        ),
{
    let d = arena.get(pi_id);
    proof {
        assert(children_below(arena@[pi_id@ as int], pi_id@ as int));
    }
    match d {
        TermData::Pi(a, b) => Ok((a, b)),
        _ => Err(TyError::invalid_elim(arena, pi_id)),
    }
}

fn sigma_parts(arena: &Arena, sig_id: TermId) -> (r: Result<(TermId, TermId), TyError>)
    requires
        sig_id@ < arena@.len(),
    ensures
        r matches Ok((a, b)) ==> a@ < sig_id@ && b@ < sig_id@,
        parts_s(arena@, sig_id, false) == Some(
            match r {
                Ok(p) => Ok(p),
                Err(e) => Err(e@),
            },
        ),
{
    let d = arena.get(sig_id);
    proof {
        assert(children_below(arena@[sig_id@ as int], sig_id@ as int));
    }
    match d {
        TermData::Sigma(a, b) => Ok((a, b)),
        _ => Err(TyError::invalid_elim(arena, sig_id)),
    }
}

fn check_inner(
    arena: &mut Arena,
    sig: &Signature,
    ctx: &Context,
    env: &Env,
    levels: &mut ConstraintSet,
    term: TermId,
    ty: Value,
    Ghost(fuel): Ghost<nat>,
) -> (r: Result<(), TyError>)
    requires
        check_s(fuel, state(old(arena)@, old(levels)@), sig@, ctx@, env@, term, ty@) is Some,
    ensures
        check_s(fuel, state(old(arena)@, old(levels)@), sig@, ctx@, env@, term, ty@) == Some(
            (state(final(arena)@, final(levels)@), unit_result(r)),
        ),
        grows(old(arena)@, final(arena)@),
        collects(old(levels)@, final(levels)@),
    decreases fuel,
{
    let ghost f = (fuel - 1) as nat;
    let data = arena.get(term);
    proof {
        assert(children_below(arena@[term@ as int], term@ as int));
    }
    match data {
        TermData::Ann(t, ty_term) => {
            let expected = eval_in(&*arena, sig, ty_term, env, Ghost(f));
            if !def_eq_values(arena, sig, env, levels, &expected, &ty, Ghost(f)) {
                return Err(
                    TyError::type_mismatch(&*arena, term, value_display(&ty), value_display(&expected)),
                );
            }
            check_inner(arena, sig, ctx, env, levels, t, ty, Ghost(f))
        },
        TermData::Lam(param_ty, body) => check_lam(
            arena,
            sig,
            ctx,
            env,
            levels,
            term,
            param_ty,
            body,
            ty,
            Ghost(f),
        ),
        TermData::Pair(fst, snd) => check_pair(arena, sig, ctx, env, levels, term, fst, snd, ty, Ghost(f)),
        TermData::Zero => {
            if !def_eq_values(arena, sig, env, levels, &ty, &Value::VNat, Ghost(f)) {
                return Err(TyError::type_mismatch(&*arena, term, value_display(&ty), "Nat".to_owned()));
            }
            Ok(())
        },
        TermData::Succ(n) => {
            if !def_eq_values(arena, sig, env, levels, &ty, &Value::VNat, Ghost(f)) {
                return Err(TyError::type_mismatch(&*arena, term, value_display(&ty), "Nat".to_owned()));
            }
            check_inner(arena, sig, ctx, env, levels, n, Value::VNat, Ghost(f))
        },
        TermData::NatElim { motive, base, step, target } => check_nat_elim(
            arena,
            sig,
            ctx,
            env,
            levels,
            term,
            ty,
            motive,
            base,
            step,
            target,
            Ghost(f),
        ),
        TermData::SigmaElim { motive, elim, target } => check_sigma_elim(
            arena,
            sig,
            ctx,
            env,
            levels,
            term,
            ty,
            motive,
            elim,
            target,
            Ghost(f),
        ),
        _ => {
            let inferred = match infer_inner(arena, sig, ctx, env, levels, term, Ghost(f)) {
                Ok(v) => v,
                Err(e) => return Err(e),
            };
            if !def_eq_values(arena, sig, env, levels, &inferred, &ty, Ghost(f)) {
                return Err(
                    TyError::type_mismatch(&*arena, term, value_display(&ty), value_display(&inferred)),
                );
            }
            Ok(())
        },
    }
}

fn check_lam(
    arena: &mut Arena,
    sig: &Signature,
    ctx: &Context,
    env: &Env,
    levels: &mut ConstraintSet,
    term: TermId,
    param_ty: TermId,
    body: TermId,
    ty: Value,
    Ghost(fuel): Ghost<nat>,
) -> (r: Result<(), TyError>)
    requires
        term@ < old(arena)@.len(),
        param_ty@ < term@,
        check_lam_s(fuel, state(old(arena)@, old(levels)@), sig@, ctx@, env@, term, param_ty, body, ty@) is Some,
    ensures
        check_lam_s(fuel, state(old(arena)@, old(levels)@), sig@, ctx@, env@, term, param_ty, body, ty@)
            == Some((state(final(arena)@, final(levels)@), unit_result(r))),
        grows(old(arena)@, final(arena)@),
        collects(old(levels)@, final(levels)@),
    decreases fuel,
{
    let ghost f = (fuel - 1) as nat;
    match &ty {
        Value::VPi(pi_id, pi_env) => {
            let (dom, cod) = match pi_parts(&*arena, *pi_id) {
                Ok(p) => p,
                Err(e) => return Err(e),
            };
            let dom_val = eval_in(&*arena, sig, dom, pi_env, Ghost(f));
            let param_ty_val = eval_in(&*arena, sig, param_ty, env, Ghost(f));
            if !def_eq_values(arena, sig, env, levels, &param_ty_val, &dom_val, Ghost(f)) {
                let found = crate::error::term_display(&*arena, param_ty);
                return Err(TyError::type_mismatch(&*arena, term, value_display(&dom_val), found));
            }
            let new_ctx = ctx.extend(copy_value(&dom_val));
            let new_env = env.extend(Value::VNeutral(Neutral::NVar(env.len())));
            let cod_env = pi_env.extend(Value::VNeutral(Neutral::NVar(pi_env.len())));
            let cod_val = eval_in(&*arena, sig, cod, &cod_env, Ghost(f));
            check_inner(arena, sig, &new_ctx, &new_env, levels, body, cod_val, Ghost(f))
        },
        _ => Err(TyError::type_mismatch(&*arena, term, "Π-type".to_owned(), value_display(&ty))),
    }
}

fn check_pair(
    arena: &mut Arena,
    sig: &Signature,
    ctx: &Context,
    env: &Env,
    levels: &mut ConstraintSet,
    term: TermId,
    fst: TermId,
    snd: TermId,
    ty: Value,
    Ghost(fuel): Ghost<nat>,
) -> (r: Result<(), TyError>)
    requires
        term@ < old(arena)@.len(),
        check_pair_s(fuel, state(old(arena)@, old(levels)@), sig@, ctx@, env@, term, fst, snd, ty@) is Some,
    ensures
        check_pair_s(fuel, state(old(arena)@, old(levels)@), sig@, ctx@, env@, term, fst, snd, ty@)
            == Some((state(final(arena)@, final(levels)@), unit_result(r))),
        grows(old(arena)@, final(arena)@),
        collects(old(levels)@, final(levels)@),
    decreases fuel,
{
    let ghost f = (fuel - 1) as nat;
    match &ty {
        Value::VSigma(sig_id, env_sig) => {
            let (a, b) = match sigma_parts(&*arena, *sig_id) {
                Ok(p) => p,
                Err(e) => return Err(e),
            };
            let fst_ty = eval_in(&*arena, sig, a, env_sig, Ghost(f));
            match check_inner(arena, sig, ctx, env, levels, fst, fst_ty, Ghost(f)) {
                Ok(()) => {},
                Err(e) => return Err(e),
            }
            let fst_val = eval_in(&*arena, sig, fst, env, Ghost(f));
            let snd_ty = eval_in(&*arena, sig, b, &env_sig.extend(fst_val), Ghost(f));
            check_inner(arena, sig, ctx, env, levels, snd, snd_ty, Ghost(f))
        },
        _ => Err(TyError::type_mismatch(&*arena, term, "Σ-type".to_owned(), value_display(&ty))),
    }
}

/// Checks `term` against the type `ty`, recording universe constraints in
/// `levels` and storing the terms it builds in the arena.
pub fn check(
    arena: &mut Arena,
    sig: &Signature,
    ctx: &Context,
    env: &Env,
    levels: &mut ConstraintSet,
    term: TermId,
    ty: Value,
) -> (r: Result<(), TyError>)
    requires
        checks(state(old(arena)@, old(levels)@), sig@, ctx@, env@, term, ty@),
    ensures
        check_outcome(state(old(arena)@, old(levels)@), sig@, ctx@, env@, term, ty@) == (
            state(final(arena)@, final(levels)@),
            unit_result(r),
        ),
        grows(old(arena)@, final(arena)@),
        collects(old(levels)@, final(levels)@),
{
    let ghost fuel = choose|f: nat|
        #[trigger] check_s(f, state(arena@, levels@), sig@, ctx@, env@, term, ty@) is Some;
    check_inner(arena, sig, ctx, env, levels, term, ty, Ghost(fuel))
}

/// Infers the type of `term`, recording universe constraints in `levels` and
/// storing the terms it builds in the arena.
pub fn infer(
    arena: &mut Arena,
    sig: &Signature,
    ctx: &Context,
    env: &Env,
    levels: &mut ConstraintSet,
    term: TermId,
) -> (r: Result<Value, TyError>)
    requires
        infers(state(old(arena)@, old(levels)@), sig@, ctx@, env@, term),
    ensures
        infer_outcome(state(old(arena)@, old(levels)@), sig@, ctx@, env@, term) == (
            state(final(arena)@, final(levels)@),
            value_result(r),
        ),
        grows(old(arena)@, final(arena)@),
        collects(old(levels)@, final(levels)@),
{
    let ghost fuel = choose|f: nat|
        #[trigger] infer_s(f, state(arena@, levels@), sig@, ctx@, env@, term) is Some;
    infer_inner(arena, sig, ctx, env, levels, term, Ghost(fuel))
}

fn infer_inner(
    arena: &mut Arena,
    sig: &Signature,
    ctx: &Context,
    env: &Env,
    levels: &mut ConstraintSet,
    term: TermId,
    Ghost(fuel): Ghost<nat>,
) -> (r: Result<Value, TyError>)
    requires
        infer_s(fuel, state(old(arena)@, old(levels)@), sig@, ctx@, env@, term) is Some,
    ensures
        infer_s(fuel, state(old(arena)@, old(levels)@), sig@, ctx@, env@, term) == Some(
            (state(final(arena)@, final(levels)@), value_result(r)),
        ),
        grows(old(arena)@, final(arena)@),
        collects(old(levels)@, final(levels)@),
    decreases fuel,
{
    let ghost f = (fuel - 1) as nat;
    let data = arena.get(term);
    proof {
        assert(children_below(arena@[term@ as int], term@ as int));
    }
    match data {
        TermData::Var(i) => Ok(copy_value(ctx.lookup(i))),
        TermData::Type(l) => {
            let lift = levels.fresh();
            levels.subtype(Level::var(l), Level::var(lift).succ());
            Ok(Value::VType(lift))
        },
        TermData::Pi(a, b) => infer_pi(arena, sig, ctx, env, levels, term, a, b, Ghost(f)),
        TermData::Lam(param_ty, body) => infer_lam(arena, sig, ctx, env, levels, param_ty, body, Ghost(f)),
        TermData::App(fx, x) => {
            let fun_ty = match infer_inner(arena, sig, ctx, env, levels, fx, Ghost(f)) {
                Ok(v) => v,
                Err(e) => return Err(e),
            };
            app_infer(arena, sig, ctx, env, levels, term, x, fun_ty, Ghost(f))
        },
        TermData::Sigma(a, b) => infer_sigma(arena, sig, ctx, env, levels, term, a, b, Ghost(f)),
        TermData::Pair(_, _) => Err(TyError::cannot_infer(&*arena, term)),
        TermData::Fst(p) => infer_fst(arena, sig, ctx, env, levels, term, p, Ghost(f)),
        TermData::Snd(p) => infer_snd(arena, sig, ctx, env, levels, term, p, Ghost(f)),
        TermData::Nat => Ok(Value::VType(levels.fresh())),
        TermData::Zero => Ok(Value::VNat),
        TermData::Succ(n) => {
            match check_inner(arena, sig, ctx, env, levels, n, Value::VNat, Ghost(f)) {
                Ok(()) => Ok(Value::VNat),
                Err(e) => Err(e),
            }
        },
        TermData::NatElim { .. } | TermData::SigmaElim { .. } => Err(
            TyError::cannot_infer(&*arena, term),
        ),
        TermData::Ann(t, ty) => {
            let expected = eval_in(&*arena, sig, ty, env, Ghost(f));
            match check_inner(arena, sig, ctx, env, levels, t, copy_value(&expected), Ghost(f)) {
                Ok(()) => Ok(expected),
                Err(e) => Err(e),
            }
        },
        TermData::Const(name) => lookup_const(&*arena, sig, term, &name, Ghost(levels@), Ghost(f)),
    }
}

fn infer_pi(
    arena: &mut Arena,
    sig: &Signature,
    ctx: &Context,
    env: &Env,
    levels: &mut ConstraintSet,
    term: TermId,
    a: TermId,
    b: TermId,
    Ghost(fuel): Ghost<nat>,
) -> (r: Result<Value, TyError>)
    requires
        term@ < old(arena)@.len(),
        a@ < term@,
        b@ < term@,
        infer_binder_s(fuel, state(old(arena)@, old(levels)@), sig@, ctx@, env@, term, a, b, true) is Some,
    ensures
        infer_binder_s(fuel, state(old(arena)@, old(levels)@), sig@, ctx@, env@, term, a, b, true)
            == Some((state(final(arena)@, final(levels)@), value_result(r))),
        grows(old(arena)@, final(arena)@),
        collects(old(levels)@, final(levels)@),
    decreases fuel,
{
    let ghost f = (fuel - 1) as nat;
    let a_ty = match infer_inner(arena, sig, ctx, env, levels, a, Ghost(f)) {
        Ok(v) => v,
        Err(e) => return Err(e),
    };
    match a_ty {
        Value::VType(_) => {
            let dom = eval_in(&*arena, sig, a, env, Ghost(f));
            let new_ctx = ctx.extend(dom);
            let new_env = env.extend(Value::VNeutral(Neutral::NVar(env.len())));
            let b_ty = match infer_inner(arena, sig, &new_ctx, &new_env, levels, b, Ghost(f)) {
                Ok(v) => v,
                Err(e) => return Err(e),
            };
            match b_ty {
                Value::VType(l_cod) => {
                    let lvl = levels.fresh();
                    levels.subtype(Level::var(l_cod), Level::var(lvl));
                    Ok(Value::VType(lvl))
                },
                _ => Err(
                    TyError::type_mismatch(&*arena, term, "universe".to_owned(), value_display(&b_ty)),
                ),
            }
        },
        _ => {
            let new_ctx = ctx.extend(copy_value(&a_ty));
            let new_env = env.extend(Value::VNeutral(Neutral::NVar(env.len())));
            match infer_inner(arena, sig, &new_ctx, &new_env, levels, b, Ghost(f)) {
                Ok(_) => {},
                Err(e) => return Err(e),
            }
            let pi_id = arena.pi(a, b);
            Ok(Value::VPi(pi_id, copy_env(env)))
        },
    }
}

fn infer_sigma(
    arena: &mut Arena,
    sig: &Signature,
    ctx: &Context,
    env: &Env,
    levels: &mut ConstraintSet,
    term: TermId,
    a: TermId,
    b: TermId,
    Ghost(fuel): Ghost<nat>,
) -> (r: Result<Value, TyError>)
    requires
        term@ < old(arena)@.len(),
        infer_binder_s(fuel, state(old(arena)@, old(levels)@), sig@, ctx@, env@, term, a, b, false) is Some,
    ensures
        infer_binder_s(fuel, state(old(arena)@, old(levels)@), sig@, ctx@, env@, term, a, b, false)
            == Some((state(final(arena)@, final(levels)@), value_result(r))),
        grows(old(arena)@, final(arena)@),
        collects(old(levels)@, final(levels)@),
    decreases fuel,
{
    let ghost f = (fuel - 1) as nat;
    let a_ty = match infer_inner(arena, sig, ctx, env, levels, a, Ghost(f)) {
        Ok(v) => v,
        Err(e) => return Err(e),
    };
    match a_ty {
        Value::VType(l1) => {
            let dom = eval_in(&*arena, sig, a, env, Ghost(f));
            let new_ctx = ctx.extend(dom);
            let new_env = env.extend(Value::VNeutral(Neutral::NVar(env.len())));
            let b_ty = match infer_inner(arena, sig, &new_ctx, &new_env, levels, b, Ghost(f)) {
                Ok(v) => v,
                Err(e) => return Err(e),
            };
            match b_ty {
                Value::VType(l2) => {
                    levels.subtype(Level::var(l1), Level::var(l2));
                    Ok(Value::VType(l2))
                },
                _ => Err(
                    TyError::type_mismatch(&*arena, term, "universe".to_owned(), value_display(&b_ty)),
                ),
            }
        },
        _ => Err(TyError::type_mismatch(&*arena, term, "universe".to_owned(), "Σ-type".to_owned())),
    }
}

fn infer_lam(
    arena: &mut Arena,
    sig: &Signature,
    ctx: &Context,
    env: &Env,
    levels: &mut ConstraintSet,
    param_ty: TermId,
    body: TermId,
    Ghost(fuel): Ghost<nat>,
) -> (r: Result<Value, TyError>)
    requires
        param_ty@ < old(arena)@.len(),
        infer_lam_s(fuel, state(old(arena)@, old(levels)@), sig@, ctx@, env@, param_ty, body) is Some,
    ensures
        infer_lam_s(fuel, state(old(arena)@, old(levels)@), sig@, ctx@, env@, param_ty, body) == Some(
            (state(final(arena)@, final(levels)@), value_result(r)),
        ),
        grows(old(arena)@, final(arena)@),
        collects(old(levels)@, final(levels)@),
    decreases fuel,
{
    let ghost f = (fuel - 1) as nat;
    let dom = eval_in(&*arena, sig, param_ty, env, Ghost(f));
    let new_ctx = ctx.extend(copy_value(&dom));
    let new_env = env.extend(Value::VNeutral(Neutral::NVar(env.len())));
    let cod_val = match infer_inner(arena, sig, &new_ctx, &new_env, levels, body, Ghost(f)) {
        Ok(v) => v,
        Err(e) => return Err(e),
    };
    let cod_term = quote_at(arena, sig, &cod_val, new_env.len(), Ghost(f));
    let pi_id = arena.pi(param_ty, cod_term);
    Ok(Value::VPi(pi_id, copy_env(env)))
}

fn infer_fst(
    arena: &mut Arena,
    sig: &Signature,
    ctx: &Context,
    env: &Env,
    levels: &mut ConstraintSet,
    term: TermId,
    p: TermId,
    Ghost(fuel): Ghost<nat>,
) -> (r: Result<Value, TyError>)
    requires
        term@ < old(arena)@.len(),
        infer_proj_s(fuel, state(old(arena)@, old(levels)@), sig@, ctx@, env@, term, p, true) is Some,
    ensures
        infer_proj_s(fuel, state(old(arena)@, old(levels)@), sig@, ctx@, env@, term, p, true)
            == Some((state(final(arena)@, final(levels)@), value_result(r))),
        grows(old(arena)@, final(arena)@),
        collects(old(levels)@, final(levels)@),
    decreases fuel,
{
    let ghost f = (fuel - 1) as nat;
    let pair_ty = match infer_inner(arena, sig, ctx, env, levels, p, Ghost(f)) {
        Ok(v) => v,
        Err(e) => return Err(e),
    };
    match &pair_ty {
        Value::VSigma(sig_id, env_sig) => {
            let (a, _) = match sigma_parts(&*arena, *sig_id) {
                Ok(parts) => parts,
                Err(e) => return Err(e),
            };
            Ok(eval_in(&*arena, sig, a, env_sig, Ghost(f)))
        },
        _ => Err(TyError::type_mismatch(&*arena, term, "Σ-type".to_owned(), value_display(&pair_ty))),
    }
}

fn infer_snd(
    arena: &mut Arena,
    sig: &Signature,
    ctx: &Context,
    env: &Env,
    levels: &mut ConstraintSet,
    term: TermId,
    p: TermId,
    Ghost(fuel): Ghost<nat>,
) -> (r: Result<Value, TyError>)
    requires
        term@ < old(arena)@.len(),
        infer_proj_s(fuel, state(old(arena)@, old(levels)@), sig@, ctx@, env@, term, p, false) is Some,
    ensures
        infer_proj_s(fuel, state(old(arena)@, old(levels)@), sig@, ctx@, env@, term, p, false)
            == Some((state(final(arena)@, final(levels)@), value_result(r))),
        grows(old(arena)@, final(arena)@),
        collects(old(levels)@, final(levels)@),
    decreases fuel,
{
    let ghost f = (fuel - 1) as nat;
    let pair_ty = match infer_inner(arena, sig, ctx, env, levels, p, Ghost(f)) {
        Ok(v) => v,
        Err(e) => return Err(e),
    };
    match &pair_ty {
        Value::VSigma(sig_id, env_sig) => {
            let (_a, b) = match sigma_parts(&*arena, *sig_id) {
                Ok(parts) => parts,
                Err(e) => return Err(e),
            };
            let pair_val = eval_in(&*arena, sig, p, env, Ghost(f));
            let fst_val = match pair_val {
                Value::VPair(x, _) => *x,
                _ => return Err(TyError::cannot_infer(&*arena, term)),
            };
            Ok(eval_in(&*arena, sig, b, &env_sig.extend(fst_val), Ghost(f)))
        },
        _ => Err(TyError::type_mismatch(&*arena, term, "Σ-type".to_owned(), value_display(&pair_ty))),
    }
}

fn app_infer(
    arena: &mut Arena,
    sig: &Signature,
    ctx: &Context,
    env: &Env,
    levels: &mut ConstraintSet,
    term: TermId,
    x: TermId,
    fun_ty: Value,
    Ghost(fuel): Ghost<nat>,
) -> (r: Result<Value, TyError>)
    requires
        term@ < old(arena)@.len(),
        app_infer_s(fuel, state(old(arena)@, old(levels)@), sig@, ctx@, env@, term, x, fun_ty@) is Some,
    ensures
        app_infer_s(fuel, state(old(arena)@, old(levels)@), sig@, ctx@, env@, term, x, fun_ty@)
            == Some((state(final(arena)@, final(levels)@), value_result(r))),
        grows(old(arena)@, final(arena)@),
        collects(old(levels)@, final(levels)@),
    decreases fuel,
{
    let ghost f = (fuel - 1) as nat;
    let (pi_id, pi_env) = match &fun_ty {
        Value::VPi(pi_id, pi_env) => (*pi_id, copy_env(pi_env)),
        Value::VConst(_, ty) => match &**ty {
            Value::VPi(pi_id, pi_env) => (*pi_id, copy_env(pi_env)),
            _ => {
                return Err(
                    TyError::type_mismatch(&*arena, term, "Π-type".to_owned(), value_display(&fun_ty)),
                );
            },
        },
        _ => {
            return Err(
                TyError::type_mismatch(&*arena, term, "Π-type".to_owned(), value_display(&fun_ty)),
            );
        },
    };
    let (dom, cod) = match pi_parts(&*arena, pi_id) {
        Ok(parts) => parts,
        Err(e) => return Err(e),
    };
    let dom_val = eval_in(&*arena, sig, dom, &pi_env, Ghost(f));
    let arg_val = eval_in(&*arena, sig, x, env, Ghost(f));
    match check_inner(arena, sig, ctx, env, levels, x, dom_val, Ghost(f)) {
        Ok(()) => {},
        Err(e) => return Err(e),
    }
    Ok(eval_in(&*arena, sig, cod, &pi_env.extend(arg_val), Ghost(f)))
}

fn lookup_const(
    arena: &Arena,
    sig: &Signature,
    term: TermId,
    name: &crate::term::Name,
    Ghost(levels): Ghost<LevelsView>,
    Ghost(fuel): Ghost<nat>,
) -> (r: Result<Value, TyError>)
    requires
        term@ < arena@.len(),
        lookup_const_s(fuel, state(arena@, levels), sig@, term, *name) is Some,
    ensures
        lookup_const_s(fuel, state(arena@, levels), sig@, term, *name) == Some(
            (state(arena@, levels), value_result(r)),
        ),
{
    let ghost f = (fuel - 1) as nat;
    let entry = match sig.get(name) {
        Some(e) => *e,
        None => return Err(TyError::unknown_const(arena, term, name.clone())),
    };
    let ty = match entry {
        Entry::Def { ty, .. } => ty,
        Entry::Axiom { ty } => ty,
    };
    let vty = eval_in(arena, sig, ty, &Env::new(), Ghost(f));
    match entry {
        Entry::Def { .. } => Ok(vty),
        Entry::Axiom { .. } => Ok(Value::VConst(name.clone(), Box::new(vty))),
    }
}

fn check_sigma_elim(
    arena: &mut Arena,
    sig: &Signature,
    ctx: &Context,
    env: &Env,
    levels: &mut ConstraintSet,
    term: TermId,
    ty: Value,
    motive: TermId,
    elim: TermId,
    target: TermId,
    Ghost(fuel): Ghost<nat>,
) -> (r: Result<(), TyError>)
    requires
        term@ < old(arena)@.len(),
        motive@ < term@,
        target@ < term@,
        check_sigma_elim_s(
            fuel,
            state(old(arena)@, old(levels)@),
            sig@,
            ctx@,
            env@,
            term,
            ty@,
            motive,
            elim,
            target,
        ) is Some,
    ensures
        check_sigma_elim_s(
            fuel,
            state(old(arena)@, old(levels)@),
            sig@,
            ctx@,
            env@,
            term,
            ty@,
            motive,
            elim,
            target,
        ) == Some((state(final(arena)@, final(levels)@), unit_result(r))),
        grows(old(arena)@, final(arena)@),
        collects(old(levels)@, final(levels)@),
    decreases fuel,
{
    let ghost f = (fuel - 1) as nat;
    let target_ty = match infer_inner(arena, sig, ctx, env, levels, target, Ghost(f)) {
        Ok(v) => v,
        Err(e) => return Err(e),
    };
    let sig_id = match &target_ty {
        Value::VSigma(sig_id, _) => *sig_id,
        _ => {
            return Err(
                TyError::type_mismatch(&*arena, target, "Σ-type".to_owned(), value_display(&target_ty)),
            );
        },
    };
    let (a_ty, b_ty) = match sigma_parts(&*arena, sig_id) {
        Ok(parts) => parts,
        Err(e) => return Err(e),
    };
    let lvl = levels.fresh();
    let u = arena.typ(lvl);
    let motive_pi = arena.pi(sig_id, u);
    match check_inner(arena, sig, ctx, env, levels, motive, Value::VPi(motive_pi, copy_env(env)), Ghost(f)) {
        Ok(()) => {},
        Err(e) => return Err(e),
    }
    let v1 = arena.var(1);
    let v0 = arena.var(0);
    let pr = arena.pair(v1, v0);
    let ap = arena.app(motive, pr);
    let inner = arena.pi(b_ty, ap);
    let elim_ty = arena.pi(a_ty, inner);
    let elim_ty_val = eval_in(&*arena, sig, elim_ty, env, Ghost(f));
    match check_inner(arena, sig, ctx, env, levels, elim, elim_ty_val, Ghost(f)) {
        Ok(()) => {},
        Err(e) => return Err(e),
    }
    let mt = arena.app(motive, target);
    let expected = eval_in(&*arena, sig, mt, env, Ghost(f));
    if !def_eq_values(arena, sig, env, levels, &expected, &ty, Ghost(f)) {
        return Err(
            TyError::type_mismatch(&*arena, term, value_display(&ty), value_display(&expected)),
        );
    }
    Ok(())
}

fn check_nat_elim(
    arena: &mut Arena,
    sig: &Signature,
    ctx: &Context,
    env: &Env,
    levels: &mut ConstraintSet,
    term: TermId,
    ty: Value,
    motive: TermId,
    base: TermId,
    step: TermId,
    target: TermId,
    Ghost(fuel): Ghost<nat>,
) -> (r: Result<(), TyError>)
    requires
        term@ < old(arena)@.len(),
        motive@ < term@,
        target@ < term@,
        check_nat_elim_s(
            fuel,
            state(old(arena)@, old(levels)@),
            sig@,
            ctx@,
            env@,
            term,
            ty@,
            motive,
            base,
            step,
            target,
        ) is Some,
    ensures
        check_nat_elim_s(
            fuel,
            state(old(arena)@, old(levels)@),
            sig@,
            ctx@,
            env@,
            term,
            ty@,
            motive,
            base,
            step,
            target,
        ) == Some((state(final(arena)@, final(levels)@), unit_result(r))),
        grows(old(arena)@, final(arena)@),
        collects(old(levels)@, final(levels)@),
    decreases fuel,
{
    let ghost f = (fuel - 1) as nat;
    let n0 = arena.nat_type();
    let lvl = levels.fresh();
    let u = arena.typ(lvl);
    let motive_pi = arena.pi(n0, u);
    match check_inner(arena, sig, ctx, env, levels, motive, Value::VPi(motive_pi, copy_env(env)), Ghost(f)) {
        Ok(()) => {},
        Err(e) => return Err(e),
    }
    let z = arena.zero();
    let mz = arena.app(motive, z);
    let base_ty = eval_in(&*arena, sig, mz, env, Ghost(f));
    match check_inner(arena, sig, ctx, env, levels, base, base_ty, Ghost(f)) {
        Ok(()) => {},
        Err(e) => return Err(e),
    }
    let n1 = arena.nat_type();
    let v0 = arena.var(0);
    let mv = arena.app(motive, v0);
    let v1 = arena.var(1);
    let sv = arena.succ(v1);
    let msv = arena.app(motive, sv);
    let inner = arena.pi(mv, msv);
    let step_ty = arena.pi(n1, inner);
    let step_ty_val = eval_in(&*arena, sig, step_ty, env, Ghost(f));
    match check_inner(arena, sig, ctx, env, levels, step, step_ty_val, Ghost(f)) {
        Ok(()) => {},
        Err(e) => return Err(e),
    }
    match check_inner(arena, sig, ctx, env, levels, target, Value::VNat, Ghost(f)) {
        Ok(()) => {},
        Err(e) => return Err(e),
    }
    let mt = arena.app(motive, target);
    let expected = eval_in(&*arena, sig, mt, env, Ghost(f));
    if !def_eq_values(arena, sig, env, levels, &expected, &ty, Ghost(f)) {
        return Err(
            TyError::type_mismatch(&*arena, term, value_display(&ty), value_display(&expected)),
        );
    }
    Ok(())
}

} // verus!

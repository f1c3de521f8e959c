//! Checking a development: a list of proofs, each against its statement.
use crate::arena::Arena;
use crate::check::{check, state};
use crate::context::Context;
use crate::error::{TyError, TyErrorV};
use crate::level::ConstraintSet;
use crate::nbe::{NbeState, eval_result, evaluates};
use crate::norm::eval;
use crate::signature::{Entry, Signature};
use crate::term::TermId;
use crate::typing::{check_outcome, checks};
use crate::value::{Env, ValueV};
use vstd::prelude::*;

verus! {

/// Checking each proof of `steps` against the value of its statement (both in
/// `env`), in order, from state `st`: the state reached, and the position and
/// error of the first proof that fails (the later ones are not looked at).
/// `None` when an evaluation or a check does not finish.
pub open spec fn steps_outcome(
    st: NbeState,
    sig: Map<Seq<char>, Entry>,
    ctx: Seq<ValueV>,
    env: Seq<ValueV>,
    steps: Seq<(TermId, TermId)>,
) -> Option<(NbeState, Result<(), (int, TyErrorV)>)>
    decreases steps.len(),
{
    if steps.len() == 0 {
        Some((st, Ok(())))
    } else {
        match steps_outcome(st, sig, ctx, env, steps.drop_last()) {
            Some((st1, Ok(()))) => {
                let proof_term = steps.last().0;
                let stmt = steps.last().1;
                let ty = eval_result(st1.terms, sig, stmt, env);
                if evaluates(st1.terms, sig, stmt, env) && checks(st1, sig, ctx, env, proof_term, ty) {
                    match check_outcome(st1, sig, ctx, env, proof_term, ty) {
                        (st2, Ok(())) => Some((st2, Ok(()))),
                        (st2, Err(e)) => Some((st2, Err((steps.len() - 1, e)))),
                    }
                } else {
                    None
                }
            },
            other => other,
        }
    }
}

proof fn lemma_steps_prefix(
    st: NbeState,
    sig: Map<Seq<char>, Entry>,
    ctx: Seq<ValueV>,
    env: Seq<ValueV>,
    steps: Seq<(TermId, TermId)>,
    k: int,
)
    requires
        0 <= k <= steps.len(),
        steps_outcome(st, sig, ctx, env, steps) is Some,
    ensures
        steps_outcome(st, sig, ctx, env, steps.take(k)) is Some,
    decreases steps.len(),
{
    if k == steps.len() {
        assert(steps.take(k) =~= steps);
    } else {
        lemma_steps_prefix(st, sig, ctx, env, steps.drop_last(), k);
        assert(steps.drop_last().take(k) =~= steps.take(k));
    }
}

proof fn lemma_steps_stop(
    st: NbeState,
    sig: Map<Seq<char>, Entry>,
    ctx: Seq<ValueV>,
    env: Seq<ValueV>,
    steps: Seq<(TermId, TermId)>,
    k: int,
)
    requires
        0 <= k <= steps.len(),
        steps_outcome(st, sig, ctx, env, steps.take(k)) matches Some((_, Err(_))),
    ensures
        steps_outcome(st, sig, ctx, env, steps) == steps_outcome(st, sig, ctx, env, steps.take(k)),
    decreases steps.len(),
{
    if k == steps.len() {
        assert(steps.take(k) =~= steps);
    } else {
        assert(steps.drop_last().take(k) =~= steps.take(k));
        lemma_steps_stop(st, sig, ctx, env, steps.drop_last(), k);
    }
}

/// Checks each proof against the value of its statement, in order, recording
/// universe constraints in `levels`; stops at the first proof that fails and
/// gives its position and error.
#[verifier::spinoff_prover]
pub fn check_steps(
    arena: &mut Arena,
    sig: &Signature,
    ctx: &Context,
    env: &Env,
    levels: &mut ConstraintSet,
    steps: &Vec<(TermId, TermId)>,
) -> (r: Result<(), (usize, TyError)>)
    requires
        steps_outcome(state(old(arena)@, old(levels)@), sig@, ctx@, env@, steps@) is Some,
    ensures
        steps_outcome(state(old(arena)@, old(levels)@), sig@, ctx@, env@, steps@) == Some(
            (
                state(final(arena)@, final(levels)@),
                match r {
                    Ok(()) => Ok::<(), (int, TyErrorV)>(()),
                    Err((i, e)) => Err((i as int, e@)),
                },
            ),
        ),
{
    let ghost st0 = state(arena@, levels@);
    let n = steps.len();
    let mut i: usize = 0;
    proof {
        assert(steps@.take(0) =~= Seq::<(TermId, TermId)>::empty());
    }
    while i < n
        invariant
            i <= n,
            n == steps@.len(),
            st0 == state(old(arena)@, old(levels)@),
            steps_outcome(st0, sig@, ctx@, env@, steps@) is Some,
            steps_outcome(st0, sig@, ctx@, env@, steps@.take(i as int)) == Some(
                (state(arena@, levels@), Ok::<(), (int, TyErrorV)>(())),
            ),
        decreases n - i,
    {
        let ghost st1 = state(arena@, levels@);
        proof {
            lemma_steps_prefix(st0, sig@, ctx@, env@, steps@, i + 1);
            assert(steps@.take(i + 1).drop_last() =~= steps@.take(i as int));
            assert(steps@.take(i + 1).last() == steps@[i as int]);
        }
        let proof_term = steps[i].0;
        let stmt = steps[i].1;
        let ty = eval(arena, sig, stmt, env);
        proof {
            assert(checks(st1, sig@, ctx@, env@, proof_term, ty@));
        }
        match check(arena, sig, ctx, env, levels, proof_term, ty) {
            Ok(()) => {},
            Err(e) => {
                proof {
                    lemma_steps_stop(st0, sig@, ctx@, env@, steps@, i + 1);
                }
                return Err((i, e));
            },
        }
        i = i + 1;
    }
    proof {
        assert(steps@.take(n as int) =~= steps@);
    }
    Ok(())
}

} // verus!

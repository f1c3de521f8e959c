//! Definitional equality is reflexive on the values that evaluation produces.
use crate::nbe::{
    NbeState, lemma_eval_fuel, apply_s, binder_parts, decides_def_eq, def_body, def_eq_binder_s, def_eq_lam_s,
    def_eq_neutral_s, def_eq_result, def_eq_s, elim_nat_s, elim_sigma_s, eval_const_s, eval_s, fresh_var,
    fst_s, lookup_s, neutral_of, snd_s,
};
use crate::signature::Entry;
use crate::term::{Name, TermData, TermId};
use crate::value::{NeutralV, ValueV};
use vstd::prelude::*;

verus! {

/// A well-formed value: its Π- and Σ-closures refer to Π- and Σ-nodes of the
/// arena `a`, and, unless `defs` is set, none of its opaque constants names a
/// definition of `sig`. The evaluator produces only such values from
/// well-formed environments.
pub open spec fn value_wf(a: Seq<TermData>, sig: Map<Seq<char>, Entry>, defs: bool, v: ValueV) -> bool
    decreases v,
{
    match v {
        ValueV::VPi(id, env) => id@ < a.len() && a[id@ as int] is Pi && values_wf(a, sig, defs, env),
        ValueV::VSigma(id, env) => id@ < a.len() && a[id@ as int] is Sigma && values_wf(a, sig, defs, env),
        ValueV::VLam(p, _, env) => value_wf(a, sig, defs, *p) && values_wf(a, sig, defs, env),
        ValueV::VPair(x, y) => value_wf(a, sig, defs, *x) && value_wf(a, sig, defs, *y),
        ValueV::VSucc(n) => value_wf(a, sig, defs, *n),
        ValueV::VConst(name, ty) => {
            &&& defs || !(sig.contains_key(name.0@) && sig[name.0@] is Def)
            &&& value_wf(a, sig, defs, *ty)
        },
        ValueV::VNeutral(n) => neutral_wf(a, sig, defs, n),
        _ => true,
    }
}

/// Every value of the sequence is well-formed.
pub open spec fn values_wf(a: Seq<TermData>, sig: Map<Seq<char>, Entry>, defs: bool, s: Seq<ValueV>) -> bool
    decreases s,
{
    if s.len() == 0 {
        true
    } else {
        values_wf(a, sig, defs, s.subrange(0, s.len() - 1)) && value_wf(a, sig, defs, s[s.len() - 1])
    }
}

/// A well-formed neutral term: all the values in it are well-formed.
pub open spec fn neutral_wf(a: Seq<TermData>, sig: Map<Seq<char>, Entry>, defs: bool, n: NeutralV) -> bool
    decreases n,
{
    match n {
        NeutralV::NApp(h, x) => neutral_wf(a, sig, defs, *h) && value_wf(a, sig, defs, *x),
        NeutralV::NFst(p) => neutral_wf(a, sig, defs, *p),
        NeutralV::NSnd(p) => neutral_wf(a, sig, defs, *p),
        NeutralV::NNatElim { motive, base, step, target } => {
            &&& value_wf(a, sig, defs, *motive)
            &&& value_wf(a, sig, defs, *base)
            &&& value_wf(a, sig, defs, *step)
            &&& neutral_wf(a, sig, defs, *target)
        },
        NeutralV::NSigmaElim { motive, elim, target } => {
            &&& value_wf(a, sig, defs, *motive)
            &&& value_wf(a, sig, defs, *elim)
            &&& neutral_wf(a, sig, defs, *target)
        },
        _ => true,
    }
}

/// Every value of the environment is well-formed.
pub open spec fn env_wf(a: Seq<TermData>, sig: Map<Seq<char>, Entry>, defs: bool, env: Seq<ValueV>) -> bool {
    forall|i: int| 0 <= i < env.len() ==> #[trigger] value_wf(a, sig, defs, env[i])
}

proof fn lemma_values_wf(a: Seq<TermData>, sig: Map<Seq<char>, Entry>, defs: bool, s: Seq<ValueV>)
    ensures
        values_wf(a, sig, defs, s) == env_wf(a, sig, defs, s),
    decreases s.len(),
{
    if s.len() > 0 {
        let p = s.subrange(0, s.len() - 1);
        lemma_values_wf(a, sig, defs, p);
        assert forall|i: int| 0 <= i < p.len() implies #[trigger] p[i] == s[i] by {}
        if env_wf(a, sig, defs, s) {
            assert forall|i: int| 0 <= i < p.len() implies #[trigger] value_wf(a, sig, defs, p[i]) by {
                assert(value_wf(a, sig, defs, s[i]));
            }
            assert(value_wf(a, sig, defs, s[s.len() - 1]));
            assert(values_wf(a, sig, defs, s));
        }
        if values_wf(a, sig, defs, s) {
            assert forall|i: int| 0 <= i < s.len() implies #[trigger] value_wf(a, sig, defs, s[i]) by {
                if i < p.len() {
                    assert(value_wf(a, sig, defs, p[i]));
                }
            }
        }
    }
}

proof fn lemma_push_wf(a: Seq<TermData>, sig: Map<Seq<char>, Entry>, defs: bool, env: Seq<ValueV>, v: ValueV)
    requires
        env_wf(a, sig, defs, env),
        value_wf(a, sig, defs, v),
    ensures
        env_wf(a, sig, defs, env.push(v)),
        values_wf(a, sig, defs, env.push(v)),
{
    assert forall|i: int| 0 <= i < env.push(v).len() implies #[trigger] value_wf(a, sig, defs, env.push(v)[i]) by {
        if i < env.len() {
            assert(env.push(v)[i] == env[i]);
        }
    }
    lemma_values_wf(a, sig, defs, env.push(v));
}

proof fn lemma_fresh_var_wf(a: Seq<TermData>, sig: Map<Seq<char>, Entry>, defs: bool, l: usize)
    ensures
        value_wf(a, sig, defs, fresh_var(l)),
{
    reveal_with_fuel(value_wf, 2);
    reveal_with_fuel(neutral_wf, 2);
}

proof fn lemma_projections_wf(a: Seq<TermData>, sig: Map<Seq<char>, Entry>, defs: bool, v: ValueV)
    requires
        value_wf(a, sig, defs, v),
    ensures
        neutral_wf(a, sig, defs, neutral_of(v)),
        value_wf(a, sig, defs, fst_s(v)),
        value_wf(a, sig, defs, snd_s(v)),
{
    reveal_with_fuel(value_wf, 3);
    reveal_with_fuel(neutral_wf, 3);
}

/// Evaluation in a well-formed environment yields a well-formed value.
proof fn lemma_eval_s_wf(f: nat, a: Seq<TermData>, sig: Map<Seq<char>, Entry>, defs: bool, t: TermId, env: Seq<ValueV>)
    requires
        env_wf(a, sig, defs, env),
        eval_s(f, a, sig, t, env) is Some,
    ensures
        value_wf(a, sig, defs, eval_s(f, a, sig, t, env).unwrap()),
    decreases f, 1nat,
{
    let g = (f - 1) as nat;
    lemma_values_wf(a, sig, defs, env);
    match a[t@ as int] {
        TermData::Var(i) => {
            assert(value_wf(a, sig, defs, env[env.len() - 1 - i]));
        },
        TermData::Lam(ty, b) => {
            lemma_eval_s_wf(g, a, sig, defs, ty, env);
            let vt = eval_s(g, a, sig, ty, env).unwrap();
            lemma_push_wf(a, sig, defs, env, vt);
        },
        TermData::App(x, y) => {
            lemma_eval_s_wf(g, a, sig, defs, x, env);
            lemma_eval_s_wf(g, a, sig, defs, y, env);
            lemma_apply_wf(g, a, sig, defs, eval_s(g, a, sig, x, env).unwrap(), eval_s(g, a, sig, y, env).unwrap());
        },
        TermData::Pair(x, y) => {
            lemma_eval_s_wf(g, a, sig, defs, x, env);
            lemma_eval_s_wf(g, a, sig, defs, y, env);
        },
        TermData::Fst(p) | TermData::Snd(p) => {
            lemma_eval_s_wf(g, a, sig, defs, p, env);
            lemma_projections_wf(a, sig, defs, eval_s(g, a, sig, p, env).unwrap());
        },
        TermData::Succ(p) | TermData::Ann(p, _) => {
            lemma_eval_s_wf(g, a, sig, defs, p, env);
        },
        TermData::NatElim { motive, base, step, target } => {
            lemma_eval_s_wf(g, a, sig, defs, target, env);
            lemma_elim_nat_wf(g, a, sig, defs, env, motive, base, step, eval_s(g, a, sig, target, env).unwrap());
        },
        TermData::SigmaElim { motive, elim, target } => {
            lemma_eval_s_wf(g, a, sig, defs, target, env);
            lemma_elim_sigma_wf(g, a, sig, defs, env, motive, elim, eval_s(g, a, sig, target, env).unwrap());
        },
        TermData::Const(name) => {
            lemma_eval_const_wf(g, a, sig, defs, name, env);
        },
        _ => {},
    }
}

proof fn lemma_eval_const_wf(f: nat, a: Seq<TermData>, sig: Map<Seq<char>, Entry>, defs: bool, name: Name, env: Seq<ValueV>)
    requires
        env_wf(a, sig, defs, env),
        eval_const_s(f, a, sig, name, env) is Some,
    ensures
        value_wf(a, sig, defs, eval_const_s(f, a, sig, name, env).unwrap()),
    decreases f, 0nat,
{
    reveal_with_fuel(value_wf, 3);
    reveal_with_fuel(neutral_wf, 3);
    let g = (f - 1) as nat;
    if sig.contains_key(name.0@) {
        match sig[name.0@] {
            Entry::Def { body, .. } => lemma_eval_s_wf(g, a, sig, defs, body, env),
            Entry::Axiom { ty } => lemma_eval_s_wf(g, a, sig, defs, ty, env),
        }
    }
}

proof fn lemma_apply_wf(f: nat, a: Seq<TermData>, sig: Map<Seq<char>, Entry>, defs: bool, fun: ValueV, arg: ValueV)
    requires
        value_wf(a, sig, defs, fun),
        value_wf(a, sig, defs, arg),
        apply_s(f, a, sig, fun, arg) is Some,
    ensures
        value_wf(a, sig, defs, apply_s(f, a, sig, fun, arg).unwrap()),
    decreases f, 0nat,
{
    reveal_with_fuel(value_wf, 3);
    reveal_with_fuel(neutral_wf, 3);
    lemma_projections_wf(a, sig, defs, fun);
    if let ValueV::VLam(_, body, env) = fun {
        lemma_values_wf(a, sig, defs, env);
        lemma_push_wf(a, sig, defs, env, arg);
        lemma_eval_s_wf((f - 1) as nat, a, sig, defs, body, env.push(arg));
    }
}

proof fn lemma_elim_sigma_wf(
    f: nat,
    a: Seq<TermData>,
    sig: Map<Seq<char>, Entry>,
    defs: bool,
    env: Seq<ValueV>,
    motive: TermId,
    elim: TermId,
    target: ValueV,
)
    requires
        env_wf(a, sig, defs, env),
        value_wf(a, sig, defs, target),
        elim_sigma_s(f, a, sig, env, motive, elim, target) is Some,
    ensures
        value_wf(a, sig, defs, elim_sigma_s(f, a, sig, env, motive, elim, target).unwrap()),
    decreases f, 0nat,
{
    reveal_with_fuel(value_wf, 3);
    reveal_with_fuel(neutral_wf, 3);
    let g = (f - 1) as nat;
    lemma_eval_s_wf(g, a, sig, defs, motive, env);
    lemma_eval_s_wf(g, a, sig, defs, elim, env);
    lemma_projections_wf(a, sig, defs, target);
    let ve = eval_s(g, a, sig, elim, env).unwrap();
    if let ValueV::VPair(x, y) = target {
        lemma_apply_wf(g, a, sig, defs, ve, *x);
        lemma_apply_wf(g, a, sig, defs, apply_s(g, a, sig, ve, *x).unwrap(), *y);
    }
}

proof fn lemma_elim_nat_wf(
    f: nat,
    a: Seq<TermData>,
    sig: Map<Seq<char>, Entry>,
    defs: bool,
    env: Seq<ValueV>,
    motive: TermId,
    base: TermId,
    step: TermId,
    target: ValueV,
)
    requires
        env_wf(a, sig, defs, env),
        value_wf(a, sig, defs, target),
        elim_nat_s(f, a, sig, env, motive, base, step, target) is Some,
    ensures
        value_wf(a, sig, defs, elim_nat_s(f, a, sig, env, motive, base, step, target).unwrap()),
    decreases f, 0nat,
{
    reveal_with_fuel(value_wf, 3);
    reveal_with_fuel(neutral_wf, 3);
    let g = (f - 1) as nat;
    lemma_eval_s_wf(g, a, sig, defs, motive, env);
    lemma_eval_s_wf(g, a, sig, defs, base, env);
    lemma_eval_s_wf(g, a, sig, defs, step, env);
    lemma_projections_wf(a, sig, defs, target);
    let vs = eval_s(g, a, sig, step, env).unwrap();
    if let ValueV::VSucc(n) = target {
        lemma_elim_nat_wf(g, a, sig, defs, env, motive, base, step, *n);
        let ih = elim_nat_s(g, a, sig, env, motive, base, step, *n).unwrap();
        lemma_apply_wf(g, a, sig, defs, vs, *n);
        lemma_apply_wf(g, a, sig, defs, apply_s(g, a, sig, vs, *n).unwrap(), ih);
    }
}

/// The evaluator produces well-formed values: evaluating a term in a
/// well-formed environment yields one.
pub proof fn lemma_eval_result_wf(a: Seq<TermData>, sig: Map<Seq<char>, Entry>, defs: bool, t: TermId, env: Seq<ValueV>)
    requires
        env_wf(a, sig, defs, env),
        crate::nbe::evaluates(a, sig, t, env),
    ensures
        value_wf(a, sig, defs, crate::nbe::eval_result(a, sig, t, env)),
{
    let f = choose|f: nat| #[trigger] eval_s(f, a, sig, t, env) is Some;
    lemma_eval_s_wf(f, a, sig, defs, t, env);
}

/// The value `x` stands for once its head is unfolded: a defined constant
/// stands for the value of its definition's body in `env`, repeatedly, as
/// definitional equality unfolds it.
pub open spec fn unfold_s(
    fuel: nat,
    a: Seq<TermData>,
    sig: Map<Seq<char>, Entry>,
    env: Seq<ValueV>,
    x: ValueV,
) -> Option<ValueV>
    decreases fuel,
{
    if fuel == 0 {
        None
    } else if def_body(sig, x) is Some {
        match eval_s((fuel - 1) as nat, a, sig, def_body(sig, x).unwrap(), env) {
            Some(u) => unfold_s((fuel - 1) as nat, a, sig, env, u),
            None => None,
        }
    } else {
        Some(x)
    }
}

proof fn lemma_unfold_fuel(
    f1: nat,
    f2: nat,
    a: Seq<TermData>,
    sig: Map<Seq<char>, Entry>,
    env: Seq<ValueV>,
    x: ValueV,
)
    requires
        f1 <= f2,
        unfold_s(f1, a, sig, env, x) is Some,
    ensures
        unfold_s(f2, a, sig, env, x) == unfold_s(f1, a, sig, env, x),
    decreases f1,
{
    if def_body(sig, x) is Some {
        let b = def_body(sig, x).unwrap();
        lemma_eval_fuel((f1 - 1) as nat, (f2 - 1) as nat, a, sig, b, env);
        let u = eval_s((f1 - 1) as nat, a, sig, b, env).unwrap();
        lemma_unfold_fuel((f1 - 1) as nat, (f2 - 1) as nat, a, sig, env, u);
    }
}

/// Definitional equality unfolds its first argument completely.
proof fn lemma_def_eq_unfolds_first(
    f: nat,
    st: NbeState,
    sig: Map<Seq<char>, Entry>,
    env: Seq<ValueV>,
    x: ValueV,
    y: ValueV,
)
    requires
        def_eq_s(f, st, sig, env, x, y) is Some,
    ensures
        unfold_s(f, st.terms, sig, env, x) is Some,
    decreases f,
{
    if def_body(sig, x) is Some {
        let u = eval_s((f - 1) as nat, st.terms, sig, def_body(sig, x).unwrap(), env).unwrap();
        lemma_def_eq_unfolds_first((f - 1) as nat, st, sig, env, u, y);
    }
}

/// Definitional equality unfolds its second argument completely.
proof fn lemma_def_eq_unfolds_second(
    f: nat,
    st: NbeState,
    sig: Map<Seq<char>, Entry>,
    env: Seq<ValueV>,
    x: ValueV,
    y: ValueV,
)
    requires
        def_eq_s(f, st, sig, env, x, y) is Some,
    ensures
        unfold_s(f, st.terms, sig, env, y) is Some,
    decreases f,
{
    let g = (f - 1) as nat;
    if def_body(sig, x) is Some {
        let u = eval_s(g, st.terms, sig, def_body(sig, x).unwrap(), env).unwrap();
        lemma_def_eq_unfolds_second(g, st, sig, env, u, y);
        lemma_unfold_fuel(g, f, st.terms, sig, env, y);
    } else if def_body(sig, y) is Some {
        let u = eval_s(g, st.terms, sig, def_body(sig, y).unwrap(), env).unwrap();
        lemma_def_eq_unfolds_second(g, st, sig, env, x, u);
    }
}

proof fn lemma_def_eq_refl(
    f: nat,
    st: NbeState,
    sig: Map<Seq<char>, Entry>,
    defs: bool,
    env: Seq<ValueV>,
    x: ValueV,
    y: ValueV,
)
    requires
        value_wf(st.terms, sig, defs, x),
        value_wf(st.terms, sig, defs, y),
        defs ==> env_wf(st.terms, sig, defs, env),
        def_eq_s(f, st, sig, env, x, y) is Some,
        unfold_s(f, st.terms, sig, env, x) is Some,
        unfold_s(f, st.terms, sig, env, x) == unfold_s(f, st.terms, sig, env, y),
    ensures
        def_eq_s(f, st, sig, env, x, y).unwrap().0.terms == st.terms,
        def_eq_s(f, st, sig, env, x, y).unwrap().1,
    decreases f, 1nat,
{
    let g = (f - 1) as nat;
    let a = st.terms;
    if def_body(sig, x) is Some {
        let b = def_body(sig, x).unwrap();
        let u = eval_s(g, a, sig, b, env).unwrap();
        lemma_eval_s_wf(g, a, sig, defs, b, env);
        lemma_def_eq_unfolds_second(g, st, sig, env, u, y);
        lemma_unfold_fuel(g, f, a, sig, env, y);
        lemma_def_eq_refl(g, st, sig, defs, env, u, y);
    } else if def_body(sig, y) is Some {
        let b = def_body(sig, y).unwrap();
        let u = eval_s(g, a, sig, b, env).unwrap();
        lemma_eval_s_wf(g, a, sig, defs, b, env);
        lemma_def_eq_unfolds_first(g, st, sig, env, x, u);
        lemma_def_eq_refl(g, st, sig, defs, env, x, u);
    } else {
        assert(x == y);
        match x {
            ValueV::VSucc(x1) => {
                lemma_def_eq_unfolds_first(g, st, sig, env, *x1, *x1);
                lemma_def_eq_refl(g, st, sig, defs, env, *x1, *x1);
            },
            ValueV::VPair(x1, x2) => {
                lemma_def_eq_unfolds_first(g, st, sig, env, *x1, *x1);
                lemma_def_eq_refl(g, st, sig, defs, env, *x1, *x1);
                let st1 = def_eq_s(g, st, sig, env, *x1, *x1).unwrap().0;
                lemma_def_eq_unfolds_first(g, st1, sig, env, *x2, *x2);
                lemma_def_eq_refl(g, st1, sig, defs, env, *x2, *x2);
            },
            ValueV::VPi(id, env1) => {
                lemma_values_wf(a, sig, defs, env1);
                lemma_def_eq_binder_refl(g, st, sig, defs, env, id, env1, true);
            },
            ValueV::VSigma(id, env1) => {
                lemma_values_wf(a, sig, defs, env1);
                lemma_def_eq_binder_refl(g, st, sig, defs, env, id, env1, false);
            },
            ValueV::VLam(_, b, env1) => {
                lemma_values_wf(a, sig, defs, env1);
                lemma_def_eq_lam_refl(g, st, sig, defs, env, b, env1);
            },
            ValueV::VNeutral(n) => {
                lemma_def_eq_neutral_refl(g, st, sig, defs, env, n);
            },
            _ => {},
        }
    }
}

proof fn lemma_def_eq_binder_refl(
    f: nat,
    st: NbeState,
    sig: Map<Seq<char>, Entry>,
    defs: bool,
    env: Seq<ValueV>,
    id: TermId,
    env1: Seq<ValueV>,
    is_pi: bool,
)
    requires
        id@ < st.terms.len(),
        binder_parts(st.terms, id, is_pi) is Some,
        env_wf(st.terms, sig, defs, env1),
        defs ==> env_wf(st.terms, sig, defs, env),
        def_eq_binder_s(f, st, sig, env, id, env1, id, env1, is_pi) is Some,
    ensures
        def_eq_binder_s(f, st, sig, env, id, env1, id, env1, is_pi).unwrap().0.terms == st.terms,
        def_eq_binder_s(f, st, sig, env, id, env1, id, env1, is_pi).unwrap().1,
    decreases f, 0nat,
{
    let g = (f - 1) as nat;
    let (x, y) = binder_parts(st.terms, id, is_pi).unwrap();
    lemma_eval_s_wf(g, st.terms, sig, defs, x, env1);
    let d = eval_s(g, st.terms, sig, x, env1).unwrap();
    lemma_def_eq_unfolds_first(g, st, sig, env, d, d);
    lemma_def_eq_refl(g, st, sig, defs, env, d, d);
    let st1 = def_eq_s(g, st, sig, env, d, d).unwrap().0;
    let env2 = env1.push(fresh_var(env.len() as usize));
    lemma_fresh_var_wf(st.terms, sig, defs, env.len() as usize);
    lemma_push_wf(st.terms, sig, defs, env1, fresh_var(env.len() as usize));
    if eval_s(g, st1.terms, sig, y, env2) is Some {
        lemma_eval_s_wf(g, st1.terms, sig, defs, y, env2);
        let c = eval_s(g, st1.terms, sig, y, env2).unwrap();
        lemma_def_eq_unfolds_first(g, st1, sig, env, c, c);
        lemma_def_eq_refl(g, st1, sig, defs, env, c, c);
    }
}

proof fn lemma_def_eq_lam_refl(
    f: nat,
    st: NbeState,
    sig: Map<Seq<char>, Entry>,
    defs: bool,
    env: Seq<ValueV>,
    b: TermId,
    env1: Seq<ValueV>,
)
    requires
        env_wf(st.terms, sig, defs, env1),
        defs ==> env_wf(st.terms, sig, defs, env),
        def_eq_lam_s(f, st, sig, env, b, env1, b, env1) is Some,
    ensures
        def_eq_lam_s(f, st, sig, env, b, env1, b, env1).unwrap().0.terms == st.terms,
        def_eq_lam_s(f, st, sig, env, b, env1, b, env1).unwrap().1,
    decreases f, 0nat,
{
    let g = (f - 1) as nat;
    let env2 = env1.push(fresh_var(env.len() as usize));
    lemma_fresh_var_wf(st.terms, sig, defs, env.len() as usize);
    lemma_push_wf(st.terms, sig, defs, env1, fresh_var(env.len() as usize));
    lemma_eval_s_wf(g, st.terms, sig, defs, b, env2);
    let v = eval_s(g, st.terms, sig, b, env2).unwrap();
    lemma_def_eq_unfolds_first(g, st, sig, env, v, v);
    lemma_def_eq_refl(g, st, sig, defs, env, v, v);
}

proof fn lemma_def_eq_neutral_refl(
    f: nat,
    st: NbeState,
    sig: Map<Seq<char>, Entry>,
    defs: bool,
    env: Seq<ValueV>,
    n: NeutralV,
)
    requires
        neutral_wf(st.terms, sig, defs, n),
        defs ==> env_wf(st.terms, sig, defs, env),
        def_eq_neutral_s(f, st, sig, env, n, n) is Some,
    ensures
        def_eq_neutral_s(f, st, sig, env, n, n).unwrap().0.terms == st.terms,
        def_eq_neutral_s(f, st, sig, env, n, n).unwrap().1,
    decreases f, 0nat,
{
    let g = (f - 1) as nat;
    match n {
        NeutralV::NApp(h, x) => {
            lemma_def_eq_neutral_refl(g, st, sig, defs, env, *h);
            let st1 = def_eq_neutral_s(g, st, sig, env, *h, *h).unwrap().0;
            lemma_def_eq_unfolds_first(g, st1, sig, env, *x, *x);
            lemma_def_eq_refl(g, st1, sig, defs, env, *x, *x);
        },
        NeutralV::NFst(p) | NeutralV::NSnd(p) => {
            lemma_def_eq_neutral_refl(g, st, sig, defs, env, *p);
        },
        NeutralV::NNatElim { motive, base, step, target } => {
            lemma_def_eq_unfolds_first(g, st, sig, env, *motive, *motive);
            lemma_def_eq_refl(g, st, sig, defs, env, *motive, *motive);
            let st1 = def_eq_s(g, st, sig, env, *motive, *motive).unwrap().0;
            lemma_def_eq_unfolds_first(g, st1, sig, env, *base, *base);
            lemma_def_eq_refl(g, st1, sig, defs, env, *base, *base);
            let st2 = def_eq_s(g, st1, sig, env, *base, *base).unwrap().0;
            lemma_def_eq_unfolds_first(g, st2, sig, env, *step, *step);
            lemma_def_eq_refl(g, st2, sig, defs, env, *step, *step);
            let st3 = def_eq_s(g, st2, sig, env, *step, *step).unwrap().0;
            lemma_def_eq_neutral_refl(g, st3, sig, defs, env, *target);
        },
        NeutralV::NSigmaElim { motive, elim, target } => {
            lemma_def_eq_unfolds_first(g, st, sig, env, *motive, *motive);
            lemma_def_eq_refl(g, st, sig, defs, env, *motive, *motive);
            let st1 = def_eq_s(g, st, sig, env, *motive, *motive).unwrap().0;
            lemma_def_eq_unfolds_first(g, st1, sig, env, *elim, *elim);
            lemma_def_eq_refl(g, st1, sig, defs, env, *elim, *elim);
            let st2 = def_eq_s(g, st1, sig, env, *elim, *elim).unwrap().0;
            lemma_def_eq_neutral_refl(g, st2, sig, defs, env, *target);
        },
        _ => {},
    }
}

/// Definitional equality is reflexive: deciding whether a well-formed value is
/// definitionally equal to itself answers `true` and stores no term. Where the
/// value's opaque constants may name definitions (`defs`), their bodies are
/// evaluated in `env`, which must then be well-formed too.
pub proof fn lemma_def_eq_reflexive(
    st: NbeState,
    sig: Map<Seq<char>, Entry>,
    defs: bool,
    env: Seq<ValueV>,
    v: ValueV,
)
    requires
        value_wf(st.terms, sig, defs, v),
        defs ==> env_wf(st.terms, sig, defs, env),
        decides_def_eq(st, sig, env, v, v),
    ensures
        def_eq_result(st, sig, env, v, v).1,
        def_eq_result(st, sig, env, v, v).0.terms == st.terms,
{
    let f = choose|f: nat| #[trigger] def_eq_s(f, st, sig, env, v, v) is Some;
    lemma_def_eq_unfolds_first(f, st, sig, env, v, v);
    lemma_def_eq_refl(f, st, sig, defs, env, v, v);
}

} // verus!

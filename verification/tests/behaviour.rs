use spartan_rs::arena::with_scope;
use spartan_rs::axioms::AxiomRegistry;
use spartan_rs::check::{check, fresh_level, infer, reset_levels, solve_levels};
use spartan_rs::context::Context;
use spartan_rs::development::check_steps;
use spartan_rs::env::Env;
use spartan_rs::error::{term_display, value_display, TyError};
use spartan_rs::level::{ConstraintSet, Level, LevelError, LevelVar};
use spartan_rs::norm::{def_eq, eval, normalize, quote};
use spartan_rs::signature::{Entry, Signature};
use spartan_rs::term::{Name, TermData};
use spartan_rs::value::{Neutral, Value};

fn name(s: &str) -> Name {
    Name(s.to_string())
}

#[test]
fn with_scope_returns_the_closure_result() {
    let n = with_scope(|mut arena| {
        arena.zero();
        arena.nat_type();
        arena.len()
    });
    assert_eq!(n, 2);
}

#[test]
fn arena_hands_out_consecutive_ids_and_keeps_nodes() {
    with_scope(|mut arena| {
        let z = arena.zero();
        let s = arena.succ(z);
        let v = arena.var(3);
        assert_eq!(z.index(), 0);
        assert_eq!(s.index(), 1);
        assert_eq!(v.index(), 2);
        assert!(matches!(arena.get(z), TermData::Zero));
        assert!(matches!(arena.get(s), TermData::Succ(c) if c == z));
        assert!(matches!(arena.get(v), TermData::Var(3)));
        let p = arena.pi(z, s);
        assert!(matches!(arena.get(p), TermData::Pi(a, b) if a == z && b == s));
        assert!(matches!(arena.get(z), TermData::Zero));
    });
}

#[test]
fn env_lookup_after_extend() {
    let env = Env::new();
    assert!(env.is_empty());
    let e1 = env.extend(Value::VZero);
    let e2 = e1.extend(Value::VNat);
    assert_eq!(e2.len(), 2);
    assert!(matches!(e2.lookup(0), Value::VNat));
    assert!(matches!(e2.lookup(1), Value::VZero));
    assert!(matches!(e1.lookup(0), Value::VZero));
    assert_eq!(e1.len(), 1);
}

#[test]
fn context_lookup_after_extend() {
    let ctx = Context::new();
    assert!(ctx.is_empty());
    let c1 = ctx.extend(Value::VNat);
    let c2 = c1.extend(Value::VType(LevelVar(4)));
    assert_eq!(c2.len(), 2);
    assert!(matches!(c2.lookup(0), Value::VType(LevelVar(4))));
    assert!(matches!(c2.lookup(1), Value::VNat));
}

#[test]
fn signature_get_after_insert() {
    with_scope(|mut arena| {
        let ty = arena.nat_type();
        let body = arena.zero();
        let mut sig = Signature::new();
        assert!(sig.get(&name("x")).is_none());
        sig.insert_axiom(name("x"), ty);
        assert!(matches!(sig.get(&name("x")), Some(Entry::Axiom { ty: t }) if *t == ty));
        sig.insert_def(name("y"), ty, body);
        assert!(matches!(sig.get(&name("y")), Some(Entry::Def { ty: t, body: b }) if *t == ty && *b == body));
        // Replacing an entry keeps only the latest one.
        sig.insert_def(name("x"), ty, body);
        assert!(matches!(sig.get(&name("x")), Some(Entry::Def { .. })));
        assert!(sig.get(&name("z")).is_none());
    });
}

#[test]
fn axiom_registry_get_after_register() {
    with_scope(|mut arena| {
        let a = arena.nat_type();
        let b = arena.zero();
        let mut reg = AxiomRegistry::new();
        assert_eq!(reg.get_type(&name("p")), None);
        reg.register(name("p"), a);
        reg.register(name("q"), b);
        assert_eq!(reg.get_type(&name("p")), Some(a));
        assert_eq!(reg.get_type(&name("q")), Some(b));
        reg.register(name("p"), b);
        assert_eq!(reg.get_type(&name("p")), Some(b));
    });
}

#[test]
fn eval_axiom_is_opaque_and_definition_unfolds() {
    with_scope(|mut arena| {
        let nat = arena.nat_type();
        let zero = arena.zero();
        let one = arena.succ(zero);
        let mut sig = Signature::new();
        sig.insert_axiom(name("c"), nat);
        sig.insert_def(name("d"), nat, one);
        let env = Env::new();
        let kc = arena.konst(name("c"));
        let kd = arena.konst(name("d"));
        let ku = arena.konst(name("u"));
        match eval(&arena, &sig, kc, &env) {
            Value::VConst(n, ty) => {
                assert_eq!(n, name("c"));
                assert!(matches!(*ty, Value::VNat));
            }
            other => panic!("expected VConst, got {other:?}"),
        }
        match eval(&arena, &sig, kd, &env) {
            Value::VSucc(inner) => assert!(matches!(*inner, Value::VZero)),
            other => panic!("expected VSucc, got {other:?}"),
        }
        assert!(matches!(eval(&arena, &sig, ku, &env), Value::VNeutral(Neutral::NConst(n)) if n == name("u")));
    });
}

#[test]
fn eval_beta_reduces_applications() {
    with_scope(|mut arena| {
        let sig = Signature::new();
        let env = Env::new();
        let nat = arena.nat_type();
        let x = arena.var(0);
        let sx = arena.succ(x);
        let f = arena.lam(nat, sx);
        let zero = arena.zero();
        let app = arena.app(f, zero);
        match eval(&arena, &sig, app, &env) {
            Value::VSucc(inner) => assert!(matches!(*inner, Value::VZero)),
            other => panic!("expected VSucc(VZero), got {other:?}"),
        }
        let pair = arena.pair(zero, sx);
        let fst = arena.fst(pair);
        let env1 = env.extend(Value::VNat);
        assert!(matches!(eval(&arena, &sig, fst, &env1), Value::VZero));
    });
}

#[test]
fn eval_nat_elim_iterates_the_step() {
    with_scope(|mut arena| {
        let sig = Signature::new();
        let env = Env::new();
        let nat = arena.nat_type();
        let motive = arena.lam(nat, nat);
        let zero = arena.zero();
        // step n ih = succ (succ ih): doubles
        let ih = arena.var(0);
        let s1 = arena.succ(ih);
        let s2 = arena.succ(s1);
        let step_in = arena.lam(nat, s2);
        let step = arena.lam(nat, step_in);
        let one = arena.succ(zero);
        let two = arena.succ(one);
        let elim = arena.nat_elim(motive, zero, step, two);
        let mut v = eval(&arena, &sig, elim, &env);
        let mut count = 0;
        loop {
            match v {
                Value::VSucc(inner) => {
                    count += 1;
                    v = *inner;
                }
                Value::VZero => break,
                other => panic!("expected a numeral, got {other:?}"),
            }
        }
        assert_eq!(count, 4);
    });
}

#[test]
fn quote_reifies_numerals() {
    with_scope(|mut arena| {
        let sig = Signature::new();
        let v = Value::VSucc(Box::new(Value::VZero));
        let t = quote(&mut arena, &sig, &v, 0);
        match arena.get(t) {
            TermData::Succ(c) => assert!(matches!(arena.get(c), TermData::Zero)),
            other => panic!("expected Succ, got {other:?}"),
        }
        let n = Value::VNeutral(Neutral::NVar(0));
        let tn = quote(&mut arena, &sig, &n, 3);
        assert!(matches!(arena.get(tn), TermData::Var(2)));
    });
}

#[test]
fn normalize_reduces_redexes() {
    with_scope(|mut arena| {
        let sig = Signature::new();
        let env = Env::new();
        let nat = arena.nat_type();
        let x = arena.var(0);
        let f = arena.lam(nat, x);
        let zero = arena.zero();
        let app = arena.app(f, zero);
        let nf = normalize(&mut arena, &sig, &env, app);
        assert!(matches!(arena.get(nf), TermData::Zero));
    });
}

#[test]
fn def_eq_compares_normal_forms() {
    with_scope(|mut arena| {
        let sig = Signature::new();
        let env = Env::new();
        let mut levels = ConstraintSet::new();
        let one = Value::VSucc(Box::new(Value::VZero));
        let one_again = Value::VSucc(Box::new(Value::VZero));
        assert!(def_eq(&mut arena, &sig, &env, &mut levels, &one, &one_again));
        assert!(!def_eq(&mut arena, &sig, &env, &mut levels, &one, &Value::VZero));
        assert!(!def_eq(&mut arena, &sig, &env, &mut levels, &Value::VNat, &Value::VZero));
    });
}

#[test]
fn def_eq_of_first_order_values_is_equality_of_normal_forms() {
    with_scope(|mut arena| {
        let sig = Signature::new();
        let env = Env::new()
            .extend(Value::VNeutral(Neutral::NVar(0)))
            .extend(Value::VNeutral(Neutral::NVar(1)));
        let mut levels = ConstraintSet::new();
        let stuck = |l: usize| {
            Value::VNeutral(Neutral::NApp(
                Box::new(Neutral::NConst(name("f"))),
                Box::new(Value::VNeutral(Neutral::NVar(l))),
            ))
        };
        let pair = |l: usize| Value::VPair(Box::new(stuck(l)), Box::new(Value::VSucc(Box::new(Value::VZero))));
        assert!(def_eq(&mut arena, &sig, &env, &mut levels, &pair(0), &pair(0)));
        assert!(!def_eq(&mut arena, &sig, &env, &mut levels, &pair(0), &pair(1)));
        let fst = Value::VNeutral(Neutral::NFst(Box::new(Neutral::NVar(0))));
        let snd = Value::VNeutral(Neutral::NSnd(Box::new(Neutral::NVar(0))));
        assert!(!def_eq(&mut arena, &sig, &env, &mut levels, &fst, &snd));
        assert!(!def_eq(&mut arena, &sig, &env, &mut levels, &stuck(0), &Value::VZero));
        let t = quote(&mut arena, &sig, &pair(0), 2);
        let (l, r) = match arena.get(t) {
            TermData::Pair(l, r) => (l, r),
            other => panic!("{other:?}"),
        };
        let (h, x) = match arena.get(l) {
            TermData::App(h, x) => (h, x),
            other => panic!("{other:?}"),
        };
        assert!(matches!(arena.get(h), TermData::Const(n) if n == name("f")));
        assert!(matches!(arena.get(x), TermData::Var(1)));
        assert!(matches!(arena.get(r), TermData::Succ(z) if matches!(arena.get(z), TermData::Zero)));
        assert!(levels.solve().is_ok());
    });
}

#[test]
fn def_eq_on_universes_records_a_constraint() {
    with_scope(|mut arena| {
        let sig = Signature::new();
        let env = Env::new();
        let mut levels = ConstraintSet::new();
        let a = levels.fresh();
        let b = levels.fresh();
        assert!(def_eq(&mut arena, &sig, &env, &mut levels, &Value::VType(a), &Value::VType(b)));
        assert!(levels.solve().is_ok());
        assert_eq!(levels.instantiate(Level::var(a)), levels.instantiate(Level::var(b)));
    });
}

#[test]
fn check_zero_against_nat() {
    with_scope(|mut arena| {
        let sig = Signature::new();
        let ctx = Context::new();
        let env = Env::new();
        let mut levels = ConstraintSet::new();
        let zero = arena.zero();
        let one = arena.succ(zero);
        assert!(check(&mut arena, &sig, &ctx, &env, &mut levels, one, Value::VNat).is_ok());
    });
}

#[test]
fn check_reports_type_mismatch() {
    with_scope(|mut arena| {
        let sig = Signature::new();
        let ctx = Context::new();
        let env = Env::new();
        let mut levels = ConstraintSet::new();
        let zero = arena.zero();
        let l = fresh_level(&mut levels);
        match check(&mut arena, &sig, &ctx, &env, &mut levels, zero, Value::VType(l)) {
            Err(TyError::TypeMismatch { term, expected, found }) => {
                assert_eq!(term, "Zero");
                assert_eq!(expected, format!("{:?}", Value::VType(l)));
                assert_eq!(found, "Nat");
            }
            other => panic!("expected a type mismatch, got {other:?}"),
        }
    });
}

#[test]
fn infer_reports_unknown_constant() {
    with_scope(|mut arena| {
        let sig = Signature::new();
        let ctx = Context::new();
        let env = Env::new();
        let mut levels = ConstraintSet::new();
        let k = arena.konst(name("nope"));
        match infer(&mut arena, &sig, &ctx, &env, &mut levels, k) {
            Err(TyError::UnknownConst { name: n, .. }) => assert_eq!(n, name("nope")),
            other => panic!("expected an unknown constant, got {other:?}"),
        }
    });
}

#[test]
fn infer_lambda_is_pi_but_pair_cannot_be_inferred() {
    with_scope(|mut arena| {
        let sig = Signature::new();
        let ctx = Context::new();
        let env = Env::new();
        let mut levels = ConstraintSet::new();
        let nat = arena.nat_type();
        let x = arena.var(0);
        let f = arena.lam(nat, x);
        match infer(&mut arena, &sig, &ctx, &env, &mut levels, f) {
            Ok(Value::VPi(pi, _)) => match arena.get(pi) {
                TermData::Pi(dom, cod) => {
                    assert_eq!(dom, nat);
                    assert!(matches!(arena.get(cod), TermData::Nat));
                }
                other => panic!("expected a Pi node, got {other:?}"),
            },
            other => panic!("expected a Pi type, got {other:?}"),
        }
        let zero = arena.zero();
        let pair = arena.pair(zero, zero);
        assert!(matches!(
            infer(&mut arena, &sig, &ctx, &env, &mut levels, pair),
            Err(TyError::CannotInfer { term }) if term == format!("Pair({:?}, {:?})", zero, zero)
        ));
    });
}

#[test]
fn infer_types_of_basic_terms() {
    with_scope(|mut arena| {
        let mut sig = Signature::new();
        let ctx = Context::new().extend(Value::VNat);
        let env = Env::new().extend(Value::VNeutral(Neutral::NVar(0)));
        let mut levels = ConstraintSet::new();
        let zero = arena.zero();
        assert!(matches!(infer(&mut arena, &sig, &ctx, &env, &mut levels, zero), Ok(Value::VNat)));
        let x = arena.var(0);
        assert!(matches!(infer(&mut arena, &sig, &ctx, &env, &mut levels, x), Ok(Value::VNat)));
        let nat = arena.nat_type();
        assert!(matches!(infer(&mut arena, &sig, &ctx, &env, &mut levels, nat), Ok(Value::VType(_))));
        sig.insert_axiom(name("c"), nat);
        let kc = arena.konst(name("c"));
        match infer(&mut arena, &sig, &ctx, &env, &mut levels, kc) {
            Ok(Value::VConst(n, _)) => assert_eq!(n, name("c")),
            other => panic!("expected the axiom's type, got {other:?}"),
        }
    });
}

#[test]
fn check_lambda_against_pi() {
    with_scope(|mut arena| {
        let sig = Signature::new();
        let ctx = Context::new();
        let env = Env::new();
        let mut levels = ConstraintSet::new();
        let nat = arena.nat_type();
        let pi = arena.pi(nat, nat);
        let x = arena.var(0);
        let sx = arena.succ(x);
        let f = arena.lam(nat, sx);
        let pi_val = eval(&arena, &sig, pi, &env);
        assert!(check(&mut arena, &sig, &ctx, &env, &mut levels, f, pi_val).is_ok());
        // A lambda is not a natural number.
        assert!(matches!(
            check(&mut arena, &sig, &ctx, &env, &mut levels, f, Value::VNat),
            Err(TyError::TypeMismatch { .. })
        ));
    });
}

#[test]
fn infer_projection_of_non_pair_is_a_mismatch() {
    with_scope(|mut arena| {
        let sig = Signature::new();
        let ctx = Context::new();
        let env = Env::new();
        let mut levels = ConstraintSet::new();
        let zero = arena.zero();
        let fst = arena.fst(zero);
        assert!(matches!(
            infer(&mut arena, &sig, &ctx, &env, &mut levels, fst),
            Err(TyError::TypeMismatch { .. })
        ));
    });
}

#[test]
fn check_pi_closure_over_non_pi_term_is_invalid_elim() {
    with_scope(|mut arena| {
        let sig = Signature::new();
        let ctx = Context::new();
        let env = Env::new();
        let mut levels = ConstraintSet::new();
        let nat = arena.nat_type();
        let x = arena.var(0);
        let f = arena.lam(nat, x);
        // A Π closure whose term is not a Π node cannot be taken apart.
        let bogus = Value::VPi(nat, Env::new());
        match check(&mut arena, &sig, &ctx, &env, &mut levels, f, bogus) {
            Err(TyError::InvalidElim { term }) => assert_eq!(term, "Nat"),
            other => panic!("expected an invalid elimination, got {other:?}"),
        }
    });
}

#[test]
fn solve_levels_on_empty_set_is_ok() {
    let mut levels = ConstraintSet::new();
    reset_levels(&mut levels);
    assert_eq!(solve_levels(&mut levels), Ok(()));
}

#[test]
fn solver_rejects_successor_below_zero() {
    let mut cs = ConstraintSet::new();
    cs.subtype(Level::Zero.succ().succ(), Level::Zero);
    assert_eq!(cs.solve(), Err(LevelError::Inconsistent));
}

#[test]
fn solver_accepts_zero_below_anything() {
    let mut cs = ConstraintSet::new();
    let a = cs.fresh();
    cs.subtype(Level::Zero, Level::var(a));
    cs.subtype(Level::Zero, Level::Zero);
    cs.subtype(Level::Zero, Level::Zero.succ());
    assert_eq!(cs.solve(), Ok(()));
}

#[test]
fn solver_assigns_variable_below_closed_level() {
    let mut cs = ConstraintSet::new();
    let a = cs.fresh();
    cs.subtype(Level::Zero.succ().succ(), Level::var(a));
    assert_eq!(cs.solve(), Ok(()));
    assert_eq!(cs.instantiate(Level::var(a)), Level::Zero.succ().succ());
}

#[test]
fn solver_unifies_variables_and_finds_inconsistency_through_them() {
    let mut cs = ConstraintSet::new();
    let a = cs.fresh();
    cs.subtype(Level::var(a).succ(), Level::var(a));
    cs.equate(Level::var(a), Level::Zero);
    assert_eq!(cs.solve(), Err(LevelError::Inconsistent));
}

#[test]
fn fresh_levels_are_distinct() {
    let mut cs = ConstraintSet::new();
    let a = fresh_level(&mut cs);
    let b = fresh_level(&mut cs);
    assert_eq!(a, LevelVar(0));
    assert_eq!(b, LevelVar(1));
    reset_levels(&mut cs);
    assert_eq!(fresh_level(&mut cs), LevelVar(0));
}

#[test]
fn instantiate_without_assignment_is_identity() {
    let mut cs = ConstraintSet::new();
    let a = cs.fresh();
    let l = Level::var(a).succ();
    assert_eq!(cs.instantiate(l.clone()), l);
}

#[test]
fn displays_use_debug_text() {
    with_scope(|mut arena| {
        let z = arena.zero();
        assert_eq!(term_display(&arena, z), "Zero");
        let s = arena.succ(z);
        assert_eq!(term_display(&arena, s), format!("Succ({:?})", z));
        assert_eq!(value_display(&Value::VZero), "VZero");
        assert_eq!(value_display(&Value::VSucc(Box::new(Value::VNat))), "VSucc(VNat)");
    });
}

#[test]
fn error_constructors_describe_the_term() {
    with_scope(|mut arena| {
        let z = arena.zero();
        match TyError::type_mismatch(&arena, z, "A".to_string(), "B".to_string()) {
            TyError::TypeMismatch { term, expected, found } => {
                assert_eq!(term, "Zero");
                assert_eq!(expected, "A");
                assert_eq!(found, "B");
            }
            other => panic!("unexpected {other:?}"),
        }
        assert!(matches!(TyError::cannot_infer(&arena, z), TyError::CannotInfer { term } if term == "Zero"));
        assert!(matches!(TyError::invalid_elim(&arena, z), TyError::InvalidElim { term } if term == "Zero"));
        assert!(matches!(
            TyError::unknown_const(&arena, z, name("k")),
            TyError::UnknownConst { term, name: n } if term == "Zero" && n == name("k")
        ));
        let e: TyError = LevelError::Inconsistent.into();
        assert!(matches!(e, TyError::Level(LevelError::Inconsistent)));
    });
}

fn numeral_depth(arena: &spartan_rs::arena::Arena, t: spartan_rs::term::TermId) -> usize {
    match arena.get(t) {
        TermData::Zero => 0,
        TermData::Succ(p) => 1 + numeral_depth(arena, p),
        other => panic!("not a numeral: {other:?}"),
    }
}

#[test]
fn normalizing_a_numeral_keeps_its_structure() {
    with_scope(|mut arena| {
        let sig = Signature::new();
        let env = Env::new().extend(Value::VNat).extend(Value::VZero);
        let mut t = arena.zero();
        for _ in 0..5 {
            t = arena.succ(t);
        }
        let nf = normalize(&mut arena, &sig, &env, t);
        assert_ne!(nf, t);
        assert_eq!(numeral_depth(&arena, nf), 5);
    });
}

#[test]
fn handles_survive_later_operations() {
    with_scope(|mut arena| {
        let sig = Signature::new();
        let ctx = Context::new();
        let env = Env::new();
        let mut levels = ConstraintSet::new();
        let nat = arena.nat_type();
        let zero = arena.zero();
        let pi = arena.pi(nat, nat);
        let before = arena.len();
        let v = Value::VPair(Box::new(Value::VZero), Box::new(Value::VNat));
        quote(&mut arena, &sig, &v, 0);
        normalize(&mut arena, &sig, &env, pi);
        let pi_val = eval(&arena, &sig, pi, &env);
        let x = arena.var(0);
        let f = arena.lam(nat, x);
        assert!(check(&mut arena, &sig, &ctx, &env, &mut levels, f, pi_val).is_ok());
        assert!(arena.len() > before);
        assert!(matches!(arena.get(nat), TermData::Nat));
        assert!(matches!(arena.get(zero), TermData::Zero));
        assert!(matches!(arena.get(pi), TermData::Pi(a, b) if a == nat && b == nat));
    });
}

#[test]
fn def_eq_is_reflexive_on_evaluated_values() {
    with_scope(|mut arena| {
        let mut sig = Signature::new();
        let env = Env::new().extend(Value::VNeutral(Neutral::NVar(0)));
        let mut levels = ConstraintSet::new();
        let nat = arena.nat_type();
        sig.insert_axiom(name("c"), nat);
        let pi = arena.pi(nat, nat);
        let x = arena.var(0);
        let sx = arena.succ(x);
        let lam = arena.lam(nat, sx);
        let kc = arena.konst(name("c"));
        let app = arena.app(kc, x);
        let fst = arena.fst(x);
        let sigma = arena.sigma(nat, nat);
        for t in [pi, lam, kc, app, fst, sigma, sx] {
            let v = eval(&arena, &sig, t, &env);
            let before = arena.len();
            assert!(def_eq(&mut arena, &sig, &env, &mut levels, &v, &v), "{v:?}");
            assert_eq!(arena.len(), before);
        }
        // A constant naming a definition is unfolded on both sides.
        let zero = arena.zero();
        let one = arena.succ(zero);
        sig.insert_def(name("d"), nat, one);
        let dv = Value::VConst(name("d"), Box::new(Value::VNat));
        assert!(def_eq(&mut arena, &sig, &env, &mut levels, &dv, &dv));
        assert!(def_eq(&mut arena, &sig, &env, &mut levels, &dv, &Value::VSucc(Box::new(Value::VZero))));
    });
}

#[test]
fn def_eq_is_false_for_a_closure_over_a_foreign_node() {
    with_scope(|mut arena| {
        let sig = Signature::new();
        let env = Env::new();
        let mut levels = ConstraintSet::new();
        let nat = arena.nat_type();
        // A Π closure whose term is not a Π node is unequal even to itself.
        let bogus = Value::VPi(nat, Env::new());
        assert!(!def_eq(&mut arena, &sig, &env, &mut levels, &bogus, &bogus));
    });
}

#[test]
fn solver_accepts_variable_chains() {
    let mut cs = ConstraintSet::new();
    let a = cs.fresh();
    let b = cs.fresh();
    let c = cs.fresh();
    cs.subtype(Level::var(a), Level::var(b));
    cs.subtype(Level::var(b), Level::var(c));
    cs.subtype(Level::var(c), Level::var(a));
    cs.equate(Level::var(a), Level::var(c));
    assert_eq!(cs.solve(), Ok(()));
    assert_eq!(cs.instantiate(Level::var(a)), cs.instantiate(Level::var(c)));
}

#[test]
fn checking_only_collects_constraints() {
    with_scope(|mut arena| {
        let sig = Signature::new();
        let ctx = Context::new();
        let env = Env::new();
        let mut levels = ConstraintSet::new();
        let a = levels.fresh();
        let nat = arena.nat_type();
        let pi = arena.pi(nat, nat);
        assert!(matches!(infer(&mut arena, &sig, &ctx, &env, &mut levels, pi), Ok(Value::VType(_))));
        // Nothing was solved: the variable is still unassigned, and later
        // variables are new.
        assert_eq!(levels.instantiate(Level::var(a)), Level::var(a));
        let b = levels.fresh();
        assert!(b.0 > a.0 + 1);
    });
}

#[test]
fn solver_meets_two_upper_bounds_of_a_free_variable() {
    let mut cs = ConstraintSet::new();
    let a = cs.fresh();
    cs.subtype(Level::var(a), Level::Zero);
    cs.subtype(Level::var(a), Level::Zero.succ());
    assert_eq!(cs.solve(), Ok(()));
    assert_eq!(cs.instantiate(Level::var(a)), Level::Zero);
}

#[test]
fn solver_terminates_when_a_variable_is_bounded_by_its_successor() {
    let mut cs = ConstraintSet::new();
    let a = cs.fresh();
    let b = cs.fresh();
    cs.subtype(Level::var(a), Level::Zero);
    cs.subtype(Level::var(a), Level::var(b));
    cs.subtype(Level::var(b), Level::var(a).succ());
    assert_eq!(cs.solve(), Ok(()));
    assert_eq!(cs.instantiate(Level::var(a)), Level::Zero);
    assert_eq!(cs.instantiate(Level::var(b)), Level::Zero);
}

#[test]
fn solver_records_the_least_solution() {
    let mut cs = ConstraintSet::new();
    let a = cs.fresh();
    let b = cs.fresh();
    cs.subtype(Level::Zero.succ(), Level::var(a));
    cs.subtype(Level::var(a).succ(), Level::var(b));
    cs.subtype(Level::var(b), Level::Zero.succ().succ().succ());
    assert_eq!(cs.solve(), Ok(()));
    assert_eq!(cs.instantiate(Level::var(a)), Level::Zero.succ());
    assert_eq!(cs.instantiate(Level::var(b)), Level::Zero.succ().succ());
    // A later solve reads the recorded values.
    cs.subtype(Level::var(b), Level::Zero.succ());
    assert_eq!(cs.solve(), Err(LevelError::Inconsistent));
}

#[test]
fn eval_beta_binds_the_argument_alone() {
    with_scope(|mut arena| {
        let sig = Signature::new();
        let env = Env::new();
        let nat = arena.nat_type();
        let x = arena.var(1);
        let inner = arena.lam(nat, x);
        let k2 = arena.lam(nat, inner);
        let zero = arena.zero();
        let one = arena.succ(zero);
        let app1 = arena.app(k2, zero);
        let t = arena.app(app1, one);
        assert!(matches!(eval(&arena, &sig, t, &env), Value::VZero));
    });
}

#[test]
fn quote_reads_back_the_parameter_type() {
    with_scope(|mut arena| {
        let sig = Signature::new();
        let env = Env::new();
        let nat = arena.nat_type();
        let x = arena.var(0);
        let id = arena.lam(nat, x);
        let v = eval(&arena, &sig, id, &env);
        let q = quote(&mut arena, &sig, &v, 0);
        match arena.get(q) {
            TermData::Lam(p, b) => {
                assert!(matches!(arena.get(p), TermData::Nat));
                assert!(matches!(arena.get(b), TermData::Var(0)));
            }
            other => panic!("expected a lambda, got {other:?}"),
        }
    });
}

#[test]
fn def_eq_compares_closed_pi_types_across_environments() {
    with_scope(|mut arena| {
        let sig = Signature::new();
        let env = Env::new();
        let mut levels = ConstraintSet::new();
        let nat = arena.nat_type();
        let f = arena.konst(name("F"));
        let x = arena.var(0);
        let fx = arena.app(f, x);
        let p = arena.pi(nat, fx);
        let v1 = Value::VPi(p, Env::new().extend(Value::VZero));
        let v2 = Value::VPi(p, Env::new());
        assert!(def_eq(&mut arena, &sig, &env, &mut levels, &v1, &v2));
    });
}

#[test]
fn infer_pi_with_a_non_type_codomain_is_a_mismatch() {
    with_scope(|mut arena| {
        let sig = Signature::new();
        let ctx = Context::new();
        let env = Env::new();
        let mut levels = ConstraintSet::new();
        let nat = arena.nat_type();
        let x = arena.var(0);
        let p = arena.pi(nat, x);
        match infer(&mut arena, &sig, &ctx, &env, &mut levels, p) {
            Err(TyError::TypeMismatch { expected, found, .. }) => {
                assert_eq!(expected, "universe");
                assert_eq!(found, "VNat");
            }
            other => panic!("expected a mismatch, got {other:?}"),
        }
    });
}

#[test]
fn infer_annotation_passes_checking_through() {
    with_scope(|mut arena| {
        let sig = Signature::new();
        let ctx = Context::new();
        let env = Env::new();
        let mut levels = ConstraintSet::new();
        let nat = arena.nat_type();
        let zero = arena.zero();
        let good = arena.ann(zero, nat);
        assert!(matches!(infer(&mut arena, &sig, &ctx, &env, &mut levels, good), Ok(Value::VNat)));
        let l = levels.fresh();
        let u = arena.typ(l);
        let bad = arena.ann(zero, u);
        assert!(matches!(
            infer(&mut arena, &sig, &ctx, &env, &mut levels, bad),
            Err(TyError::TypeMismatch { found, .. }) if found == "Nat"
        ));
        let motive = arena.lam(nat, nat);
        let elim = arena.nat_elim(motive, zero, zero, zero);
        assert!(matches!(
            infer(&mut arena, &sig, &ctx, &env, &mut levels, elim),
            Err(TyError::CannotInfer { .. })
        ));
    });
}

#[test]
fn check_pair_against_sigma_checks_both_components() {
    with_scope(|mut arena| {
        let sig = Signature::new();
        let ctx = Context::new();
        let env = Env::new();
        let mut levels = ConstraintSet::new();
        let nat = arena.nat_type();
        let nat2 = arena.nat_type();
        let sigma = arena.sigma(nat, nat2);
        let zero = arena.zero();
        let one = arena.succ(zero);
        let good = arena.pair(zero, one);
        let sig_ty = eval(&arena, &sig, sigma, &env);
        assert!(check(&mut arena, &sig, &ctx, &env, &mut levels, good, sig_ty).is_ok());
        let bad = arena.pair(zero, nat);
        let sig_ty = eval(&arena, &sig, sigma, &env);
        match check(&mut arena, &sig, &ctx, &env, &mut levels, bad, sig_ty) {
            Err(TyError::TypeMismatch { term, .. }) => assert_eq!(term, "Nat"),
            other => panic!("expected a type mismatch, got {other:?}"),
        }
    });
}

#[test]
fn check_pair_against_non_sigma_is_a_mismatch() {
    with_scope(|mut arena| {
        let sig = Signature::new();
        let ctx = Context::new();
        let env = Env::new();
        let mut levels = ConstraintSet::new();
        let zero = arena.zero();
        let p = arena.pair(zero, zero);
        match check(&mut arena, &sig, &ctx, &env, &mut levels, p, Value::VNat) {
            Err(TyError::TypeMismatch { expected, found, .. }) => {
                assert_eq!(expected, "Σ-type");
                assert_eq!(found, format!("{:?}", Value::VNat));
            }
            other => panic!("expected a type mismatch, got {other:?}"),
        }
    });
}

#[test]
fn infer_constant_types_by_entry_kind() {
    with_scope(|mut arena| {
        let mut sig = Signature::new();
        let ctx = Context::new();
        let env = Env::new();
        let mut levels = ConstraintSet::new();
        let nat = arena.nat_type();
        let zero = arena.zero();
        sig.insert_def(name("z"), nat, zero);
        sig.insert_axiom(name("k"), nat);
        let z = arena.konst(name("z"));
        assert!(matches!(infer(&mut arena, &sig, &ctx, &env, &mut levels, z), Ok(Value::VNat)));
        let k = arena.konst(name("k"));
        match infer(&mut arena, &sig, &ctx, &env, &mut levels, k) {
            Ok(Value::VConst(n, ty)) => {
                assert_eq!(n, name("k"));
                assert!(matches!(*ty, Value::VNat));
            }
            other => panic!("expected an opaque constant type, got {other:?}"),
        }
    });
}

#[test]
fn small_constraint_sets_are_within_the_solver_limits() {
    let mut cs = ConstraintSet::new();
    assert!(cs.within_limits());
    let a = cs.fresh();
    cs.subtype(Level::Zero.succ().succ(), Level::var(a));
    cs.equate(Level::var(a), Level::Zero.succ().succ());
    assert!(cs.within_limits());
    assert_eq!(cs.solve(), Ok(()));
}

#[test]
fn check_steps_accepts_the_analysis_development() {
    let mut levels = ConstraintSet::new();
    reset_levels(&mut levels);
    with_scope(|mut arena| {
        let mut sig = Signature::new();
        let ctx = Context::new();
        let env = Env::new();
        let analysis = spartan_rs::axioms::build_analysis(&mut arena, &mut sig, &mut levels);
        let steps = vec![
            (analysis.cauchy_proof, analysis.cauchy_thm),
            (analysis.uniform_proof, analysis.mtest_stmt),
            (analysis.mtest_proof, analysis.mtest_stmt),
        ];
        assert!(check_steps(&mut arena, &sig, &ctx, &env, &mut levels, &steps).is_ok());
        assert!(levels.within_limits());
        assert_eq!(solve_levels(&mut levels), Ok(()));
    });
}

#[test]
fn check_steps_stops_at_the_first_failing_proof() {
    with_scope(|mut arena| {
        let sig = Signature::new();
        let ctx = Context::new();
        let env = Env::new();
        let mut levels = ConstraintSet::new();
        let zero = arena.zero();
        let nat = arena.nat_type();
        let steps = vec![(zero, nat), (zero, zero), (nat, zero)];
        match check_steps(&mut arena, &sig, &ctx, &env, &mut levels, &steps) {
            Err((i, TyError::TypeMismatch { term, found, .. })) => {
                assert_eq!(i, 1);
                assert_eq!(term, "Zero");
                assert_eq!(found, "Nat");
            }
            other => panic!("expected a failure at the second proof, got {other:?}"),
        }
    });
}

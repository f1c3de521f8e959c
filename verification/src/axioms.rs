use crate::arena::{Arena, alloc_s};
use crate::level::{ConstraintSet, LevelVar, fresh_s};
use crate::signature::{Entry, NameMap, Signature};
use crate::term::{Name, Syntax, TermData, TermId, keeps_trees, tree};
use vstd::prelude::*;

verus! {

broadcast use crate::term::group_term_id, crate::term::lemma_tree_push;

/// A record of axiom names and their types.
pub struct AxiomRegistry {
    types: NameMap<TermId>,
}

impl View for AxiomRegistry {
    type V = Map<Seq<char>, TermId>;

    closed spec fn view(&self) -> Map<Seq<char>, TermId> {
        self.types@
    }
}

impl AxiomRegistry {
    pub fn new() -> (r: Self)
        ensures
            r@ == Map::<Seq<char>, TermId>::empty(),
    {
        AxiomRegistry { types: NameMap::new() }
    }

    /// Records `ty` as the type of `name`, replacing an earlier record.
    pub fn register(&mut self, name: Name, ty: TermId)
        ensures
            final(self)@ == old(self)@.insert(name.0@, ty),
    {
        self.types.insert(name, ty);
    }

    /// The type recorded for `name`.
    pub fn get_type(&self, name: &Name) -> (r: Option<TermId>)
        ensures
            r == (if self@.contains_key(name.0@) {
                Some(self@[name.0@])
            } else {
                None
            }),
    {
        match self.types.get(name) {
            Some(t) => Some(*t),
            None => None,
        }
    }
}

impl Default for AxiomRegistry {
    fn default() -> (r: Self)
        ensures
            r@ == Map::<Seq<char>, TermId>::empty(),
    {
        AxiomRegistry::new()
    }
}

/// The statements and proofs of the analysis development.
pub struct Analysis {
    pub cauchy_thm: TermId,
    pub cauchy_proof: TermId,
    pub mtest_stmt: TermId,
    pub uniform_proof: TermId,
    pub mtest_proof: TermId,
}

pub open spec fn s_const(n: Seq<char>) -> Syntax {
    Syntax::Const(n)
}

pub open spec fn s_var(i: usize) -> Syntax {
    Syntax::Var(i)
}

pub open spec fn s_app(f: Syntax, x: Syntax) -> Syntax {
    Syntax::App(Box::new(f), Box::new(x))
}

pub open spec fn s_pi(a: Syntax, b: Syntax) -> Syntax {
    Syntax::Pi(Box::new(a), Box::new(b))
}

pub open spec fn s_sigma(a: Syntax, b: Syntax) -> Syntax {
    Syntax::Sigma(Box::new(a), Box::new(b))
}

pub open spec fn s_lam(a: Syntax, b: Syntax) -> Syntax {
    Syntax::Lam(Box::new(a), Box::new(b))
}

pub open spec fn s_fst(p: Syntax) -> Syntax {
    Syntax::Fst(Box::new(p))
}

pub open spec fn s_snd(p: Syntax) -> Syntax {
    Syntax::Snd(Box::new(p))
}

pub open spec fn s_ann(t: Syntax, ty: Syntax) -> Syntax {
    Syntax::Ann(Box::new(t), Box::new(ty))
}

/// `f x y`.
pub open spec fn s_app2(f: Syntax, x: Syntax, y: Syntax) -> Syntax {
    s_app(s_app(f, x), y)
}

pub open spec fn s_real() -> Syntax {
    s_const("Real"@)
}

pub open spec fn s_prop() -> Syntax {
    s_const("Prop"@)
}

/// Sequences of reals, `Nat -> Real`.
pub open spec fn s_seq() -> Syntax {
    s_pi(Syntax::Nat, s_real())
}

/// Sequences of real functions, `Nat -> Real -> Real`.
pub open spec fn s_seq2() -> Syntax {
    s_pi(Syntax::Nat, s_pi(s_real(), s_real()))
}

/// Real functions, `Real -> Real`.
pub open spec fn s_fun_real() -> Syntax {
    s_pi(s_real(), s_real())
}

/// The Cauchy criterion: `Π s : Nat -> Real. cauchy s -> conv_exists s`.
pub open spec fn s_cauchy_thm() -> Syntax {
    s_pi(
        s_seq(),
        s_pi(s_app(s_const("cauchy"@), s_var(0)), s_app(s_const("conv_exists"@), s_var(0))),
    )
}

/// Uniform convergence of `fs` to `f`: for every positive ε there is an `N`
/// such that for all `n >= N` and all `x`, `|fs n x - f x| < ε`.
pub open spec fn s_uniform_conv(fs: Syntax, f: Syntax) -> Syntax {
    let closeness = s_app2(
        s_const("lt"@),
        s_app(
            s_const("abs"@),
            s_app2(s_const("sub"@), s_app2(fs, s_var(2), s_var(0)), s_app(f, s_var(0))),
        ),
        s_var(5),
    );
    s_pi(
        s_real(),
        s_pi(
            s_app2(s_const("lt"@), s_const("zero"@), s_var(0)),
            s_sigma(
                Syntax::Nat,
                s_pi(
                    Syntax::Nat,
                    s_pi(s_app2(s_const("nat_le"@), s_var(1), s_var(0)), s_pi(s_real(), closeness)),
                ),
            ),
        ),
    )
}

/// The majorization hypothesis body: `Π n. Π x. le (abs (v4 n x)) (v2 n)`.
pub open spec fn s_dominated() -> Syntax {
    s_pi(
        Syntax::Nat,
        s_pi(
            s_real(),
            s_app2(
                s_const("le"@),
                s_app(s_const("abs"@), s_app2(s_var(4), s_var(1), s_var(0))),
                s_app(s_var(2), s_var(1)),
            ),
        ),
    )
}

pub open spec fn s_rest() -> Syntax {
    s_sigma(s_seq(), s_sigma(s_app(s_const("cauchy"@), s_var(0)), s_dominated()))
}

pub open spec fn s_tail() -> Syntax {
    s_sigma(s_fun_real(), s_rest())
}

/// The hypothesis of the M-test: functions, a limit, a majorant that is Cauchy,
/// and the majorization.
pub open spec fn s_mtest_hyp() -> Syntax {
    s_sigma(s_seq2(), s_tail())
}

/// The Weierstrass M-test statement.
pub open spec fn s_mtest_stmt() -> Syntax {
    let motive = s_lam(
        s_mtest_hyp(),
        s_app2(s_const("uniform"@), s_fst(s_var(0)), s_fst(s_snd(s_var(0)))),
    );
    let elim = s_lam(
        s_seq2(),
        s_lam(
            s_tail(),
            Syntax::SigmaElim(
                Box::new(
                    s_lam(s_tail(), s_app2(s_const("uniform"@), s_var(1), s_fst(s_var(0)))),
                ),
                Box::new(
                    s_lam(
                        s_fun_real(),
                        s_lam(s_rest(), s_app2(s_const("uniform"@), s_var(2), s_var(1))),
                    ),
                ),
                Box::new(s_var(0)),
            ),
        ),
    );
    s_pi(
        s_mtest_hyp(),
        Syntax::SigmaElim(Box::new(motive), Box::new(elim), Box::new(s_var(0))),
    )
}

/// The type the analysis development gives axiom `name` (`None` for any other
/// name); `l0` is the first universe variable it takes.
pub open spec fn analysis_axiom_type(name: Seq<char>, l0: usize) -> Option<Syntax> {
    let rl = s_real();
    let prop = s_prop();
    let nt = Syntax::Nat;
    let binop = s_pi(rl, s_pi(rl, rl));
    let unop = s_pi(rl, rl);
    let rel = s_pi(rl, s_pi(rl, prop));
    if name == "Real"@ {
        Some(Syntax::Type(LevelVar(l0)))
    } else if name == "Prop"@ {
        Some(Syntax::Type(LevelVar((l0 + 1) as usize)))
    } else if name == "zero"@ || name == "one"@ {
        Some(rl)
    } else if name == "add"@ || name == "sub"@ {
        Some(binop)
    } else if name == "neg"@ || name == "abs"@ {
        Some(unop)
    } else if name == "le"@ || name == "lt"@ {
        Some(rel)
    } else if name == "nat_le"@ {
        Some(s_pi(nt, s_pi(nt, prop)))
    } else if name == "choice"@ {
        Some(s_pi(prop, s_pi(prop, s_pi(s_pi(prop, prop), prop))))
    } else if name == "cauchy"@ || name == "conv_exists"@ {
        Some(s_pi(s_seq(), prop))
    } else if name == "conv"@ {
        Some(s_pi(s_seq(), s_pi(rl, prop)))
    } else if name == "complete"@ || name == "cauchy_crit"@ || name == "cauchy_pf"@ {
        Some(s_cauchy_thm())
    } else if name == "uniform"@ {
        Some(s_pi(s_seq2(), s_pi(s_fun_real(), s_uniform_conv(s_var(0), s_var(0)))))
    } else if name == "uniform_from_cauchy"@ || name == "mtest"@ {
        Some(s_mtest_stmt())
    } else {
        None
    }
}

fn register_axiom(sig: &mut Signature, name: &str, ty: TermId)
    ensures
        final(sig)@ == old(sig)@.insert(name@, Entry::Axiom { ty }),
{
    let n = Name(name.to_owned());
    sig.insert_axiom(n, ty);
}

fn arr(arena: &mut Arena, dom: TermId, cod: TermId) -> (r: TermId)
    requires
        dom@ < old(arena)@.len(),
        cod@ < old(arena)@.len(),
    ensures
        (final(arena)@, r) == alloc_s(old(arena)@, TermData::Pi(dom, cod)),
        r@ == old(arena)@.len(),
        keeps_trees(old(arena)@, final(arena)@),
        tree(final(arena)@, r) == s_pi(tree(old(arena)@, dom), tree(old(arena)@, cod)),
{
    arena.pi(dom, cod)
}

fn k(arena: &mut Arena, name: &str) -> (r: TermId)
    ensures
        keeps_trees(old(arena)@, final(arena)@),
        final(arena)@.len() == old(arena)@.len() + 1,
        r@ == old(arena)@.len(),
        tree(final(arena)@, r) == s_const(name@),
        forall|i: int| 0 <= i < old(arena)@.len() ==> final(arena)@[i] == old(arena)@[i],
{
    arena.konst(Name(name.to_owned()))
}

/// Node `i` of `a` is `d`.
spec fn holds_at(a: Seq<TermData>, i: TermId, d: TermData) -> bool {
    i@ < a.len() && a[i@ as int] == d
}

/// The nodes of the uniform-convergence statement at `r` hold the handles it
/// was built from: `Π ε:Real. _ -> Σ N:Nat. Π n:Nat. _ -> Π x:Real.
/// lt (abs (sub (fs _ _) (f _))) _`, with `Real`, `Nat`, `fs` and `f` the nodes
/// at `real_id`, `nat_id`, `fs` and `f`.
spec fn uniform_nodes(a: Seq<TermData>, r: TermId, nat_id: TermId, real_id: TermId, fs: TermId, f: TermId) -> bool {
    let eps_pos = a[r@ as int]->Pi_1;
    let exists_n = a[eps_pos@ as int]->Pi_1;
    let forall_n = a[exists_n@ as int]->Sigma_1;
    let n_ge = a[forall_n@ as int]->Pi_1;
    let forall_x = a[n_ge@ as int]->Pi_1;
    let closeness = a[forall_x@ as int]->Pi_1;
    let lt_abs = a[closeness@ as int]->App_0;
    let abs_diff = a[lt_abs@ as int]->App_1;
    let diff = a[abs_diff@ as int]->App_1;
    let sub_a = a[diff@ as int]->App_0;
    let f_x = a[diff@ as int]->App_1;
    let fs_n_x = a[sub_a@ as int]->App_1;
    let fs_n = a[fs_n_x@ as int]->App_0;
    &&& a[r@ as int] is Pi && a[r@ as int]->Pi_0 == real_id
    &&& a[eps_pos@ as int] is Pi
    &&& a[exists_n@ as int] is Sigma && a[exists_n@ as int]->Sigma_0 == nat_id
    &&& a[forall_n@ as int] is Pi && a[forall_n@ as int]->Pi_0 == nat_id
    &&& a[n_ge@ as int] is Pi
    &&& a[forall_x@ as int] is Pi && a[forall_x@ as int]->Pi_0 == real_id
    &&& a[closeness@ as int] is App && a[lt_abs@ as int] is App && a[abs_diff@ as int] is App
    &&& a[diff@ as int] is App && a[sub_a@ as int] is App && a[fs_n_x@ as int] is App
    &&& a[f_x@ as int] is App && a[f_x@ as int]->App_0 == f
    &&& a[fs_n@ as int] is App && a[fs_n@ as int]->App_0 == fs
}

/// Uniform convergence of the sequence of functions `fs` to `f`.
fn uniform_conv(arena: &mut Arena, nat_id: TermId, real_id: TermId, fs: TermId, f: TermId) -> (r: TermId)
    requires
        nat_id@ < old(arena)@.len(),
        real_id@ < old(arena)@.len(),
        fs@ < old(arena)@.len(),
        f@ < old(arena)@.len(),
        tree(old(arena)@, nat_id) == Syntax::Nat,
        tree(old(arena)@, real_id) == s_real(),
    ensures
        keeps_trees(old(arena)@, final(arena)@),
        r@ < final(arena)@.len(),
        tree(final(arena)@, r) == s_uniform_conv(tree(old(arena)@, fs), tree(old(arena)@, f)),
        uniform_nodes(final(arena)@, r, nat_id, real_id, fs, f),
{
    let ghost t_fs = tree(arena@, fs);
    let ghost t_f = tree(arena@, f);
    let lt = k(arena, "lt");
    let abs = k(arena, "abs");
    let sub = k(arena, "sub");
    let v2 = arena.var(2);
    let fs_n = arena.app(fs, v2);
    assert(tree(arena@, fs_n) == s_app(t_fs, s_var(2)));
    let v0 = arena.var(0);
    let fs_n_x = arena.app(fs_n, v0);
    assert(tree(arena@, fs_n_x) == s_app2(t_fs, s_var(2), s_var(0)));
    let sub_a = arena.app(sub, fs_n_x);
    assert(tree(arena@, sub_a) == s_app(s_const("sub"@), s_app2(t_fs, s_var(2), s_var(0))));
    let v0b = arena.var(0);
    let f_x = arena.app(f, v0b);
    assert(tree(arena@, f_x) == s_app(t_f, s_var(0)));
    let diff = arena.app(sub_a, f_x);
    let abs_diff = arena.app(abs, diff);
    let lt_abs = arena.app(lt, abs_diff);
    let ghost t_abs = s_app(
        s_const("abs"@),
        s_app2(s_const("sub"@), s_app2(t_fs, s_var(2), s_var(0)), s_app(t_f, s_var(0))),
    );
    assert(tree(arena@, lt_abs) == s_app(s_const("lt"@), t_abs));
    let v5 = arena.var(5);
    let closeness = arena.app(lt_abs, v5);
    assert({
        &&& holds_at(arena@, fs_n, TermData::App(fs, v2))
        &&& holds_at(arena@, fs_n_x, TermData::App(fs_n, v0))
        &&& holds_at(arena@, sub_a, TermData::App(sub, fs_n_x))
        &&& holds_at(arena@, f_x, TermData::App(f, v0b))
        &&& holds_at(arena@, diff, TermData::App(sub_a, f_x))
        &&& holds_at(arena@, abs_diff, TermData::App(abs, diff))
        &&& holds_at(arena@, lt_abs, TermData::App(lt, abs_diff))
        &&& holds_at(arena@, closeness, TermData::App(lt_abs, v5))
    });
    let ghost t_close = s_app2(s_const("lt"@), t_abs, s_var(5));
    assert(tree(arena@, closeness) == t_close);
    let forall_x = arena.pi(real_id, closeness);
    assert(tree(arena@, forall_x) == s_pi(s_real(), t_close));
    let nat_le = k(arena, "nat_le");
    let v1 = arena.var(1);
    let le_n = arena.app(nat_le, v1);
    let v0c = arena.var(0);
    let le_n_m = arena.app(le_n, v0c);
    assert(tree(arena@, le_n_m) == s_app2(s_const("nat_le"@), s_var(1), s_var(0)));
    let n_ge = arena.pi(le_n_m, forall_x);
    let ghost t_nge = s_pi(s_app2(s_const("nat_le"@), s_var(1), s_var(0)), s_pi(s_real(), t_close));
    assert(tree(arena@, n_ge) == t_nge);
    let forall_n = arena.pi(nat_id, n_ge);
    assert(tree(arena@, forall_n) == s_pi(Syntax::Nat, t_nge));
    let exists_n = arena.sigma(nat_id, forall_n);
    assert({
        &&& holds_at(arena@, fs_n, TermData::App(fs, v2))
        &&& holds_at(arena@, fs_n_x, TermData::App(fs_n, v0))
        &&& holds_at(arena@, sub_a, TermData::App(sub, fs_n_x))
        &&& holds_at(arena@, f_x, TermData::App(f, v0b))
        &&& holds_at(arena@, diff, TermData::App(sub_a, f_x))
        &&& holds_at(arena@, abs_diff, TermData::App(abs, diff))
        &&& holds_at(arena@, lt_abs, TermData::App(lt, abs_diff))
        &&& holds_at(arena@, closeness, TermData::App(lt_abs, v5))
        &&& holds_at(arena@, forall_x, TermData::Pi(real_id, closeness))
        &&& holds_at(arena@, n_ge, TermData::Pi(le_n_m, forall_x))
        &&& holds_at(arena@, forall_n, TermData::Pi(nat_id, n_ge))
        &&& holds_at(arena@, exists_n, TermData::Sigma(nat_id, forall_n))
    });
    let ghost t_ex = s_sigma(Syntax::Nat, s_pi(Syntax::Nat, t_nge));
    assert(tree(arena@, exists_n) == t_ex);
    let lt2 = k(arena, "lt");
    let zero = k(arena, "zero");
    let lt_zero = arena.app(lt2, zero);
    let v0d = arena.var(0);
    let pos = arena.app(lt_zero, v0d);
    assert(tree(arena@, pos) == s_app2(s_const("lt"@), s_const("zero"@), s_var(0)));
    let eps_pos = arena.pi(pos, exists_n);
    assert(tree(arena@, eps_pos) == s_pi(s_app2(s_const("lt"@), s_const("zero"@), s_var(0)), t_ex));
    let top = arena.pi(real_id, eps_pos);
    assert({
        &&& holds_at(arena@, fs_n, TermData::App(fs, v2))
        &&& holds_at(arena@, fs_n_x, TermData::App(fs_n, v0))
        &&& holds_at(arena@, sub_a, TermData::App(sub, fs_n_x))
        &&& holds_at(arena@, f_x, TermData::App(f, v0b))
        &&& holds_at(arena@, diff, TermData::App(sub_a, f_x))
        &&& holds_at(arena@, abs_diff, TermData::App(abs, diff))
        &&& holds_at(arena@, lt_abs, TermData::App(lt, abs_diff))
        &&& holds_at(arena@, closeness, TermData::App(lt_abs, v5))
        &&& holds_at(arena@, forall_x, TermData::Pi(real_id, closeness))
        &&& holds_at(arena@, n_ge, TermData::Pi(le_n_m, forall_x))
        &&& holds_at(arena@, forall_n, TermData::Pi(nat_id, n_ge))
        &&& holds_at(arena@, exists_n, TermData::Sigma(nat_id, forall_n))
        &&& holds_at(arena@, eps_pos, TermData::Pi(pos, exists_n))
        &&& holds_at(arena@, top, TermData::Pi(real_id, eps_pos))
    });
    top
}

/// The types of the arithmetic and order operations, in registration order:
/// `zero`/`one` are reals; then `add`, `sub`, `neg`, `abs`, `le`, `lt`,
/// `nat_le`, `choice`, `cauchy`, `conv`, `conv_exists`.
fn operation_types(arena: &mut Arena, real_id: TermId, prop: TermId, nat_id: TermId, seq: TermId) -> (r: (
    TermId,
    TermId,
    TermId,
    TermId,
    TermId,
    TermId,
    TermId,
    TermId,
    TermId,
    TermId,
    TermId,
))
    requires
        real_id@ < old(arena)@.len(),
        prop@ < old(arena)@.len(),
        nat_id@ < old(arena)@.len(),
        seq@ < old(arena)@.len(),
        tree(old(arena)@, real_id) == s_real(),
        tree(old(arena)@, prop) == s_prop(),
        tree(old(arena)@, nat_id) == Syntax::Nat,
        tree(old(arena)@, seq) == s_seq(),
    ensures
        keeps_trees(old(arena)@, final(arena)@),
        r.0@ < final(arena)@.len(),
        r.1@ < final(arena)@.len(),
        r.2@ < final(arena)@.len(),
        r.3@ < final(arena)@.len(),
        r.4@ < final(arena)@.len(),
        r.5@ < final(arena)@.len(),
        r.6@ < final(arena)@.len(),
        r.7@ < final(arena)@.len(),
        r.8@ < final(arena)@.len(),
        r.9@ < final(arena)@.len(),
        r.10@ < final(arena)@.len(),
        tree(final(arena)@, r.0) == s_pi(s_real(), s_pi(s_real(), s_real())),
        tree(final(arena)@, r.1) == s_pi(s_real(), s_pi(s_real(), s_real())),
        tree(final(arena)@, r.2) == s_pi(s_real(), s_real()),
        tree(final(arena)@, r.3) == s_pi(s_real(), s_real()),
        tree(final(arena)@, r.4) == s_pi(s_real(), s_pi(s_real(), s_prop())),
        tree(final(arena)@, r.5) == s_pi(s_real(), s_pi(s_real(), s_prop())),
        tree(final(arena)@, r.6) == s_pi(Syntax::Nat, s_pi(Syntax::Nat, s_prop())),
        tree(final(arena)@, r.7) == s_pi(
            s_prop(),
            s_pi(s_prop(), s_pi(s_pi(s_prop(), s_prop()), s_prop())),
        ),
        tree(final(arena)@, r.8) == s_pi(s_seq(), s_prop()),
        tree(final(arena)@, r.9) == s_pi(s_seq(), s_pi(s_real(), s_prop())),
        tree(final(arena)@, r.10) == s_pi(s_seq(), s_prop()),
{
    let add_in = arr(arena, real_id, real_id);
    let add_ty = arr(arena, real_id, add_in);
    let sub_in = arr(arena, real_id, real_id);
    let sub_ty = arr(arena, real_id, sub_in);
    let neg_ty = arr(arena, real_id, real_id);
    let abs_ty = arr(arena, real_id, real_id);
    let le_in = arr(arena, real_id, prop);
    let le_ty = arr(arena, real_id, le_in);
    let lt_in = arr(arena, real_id, prop);
    let lt_ty = arr(arena, real_id, lt_in);
    let nat_le_in = arr(arena, nat_id, prop);
    let nat_le_ty = arr(arena, nat_id, nat_le_in);
    let pp = arr(arena, prop, prop);
    let choice_c = arr(arena, pp, prop);
    let choice_b = arr(arena, prop, choice_c);
    let choice_ty = arr(arena, prop, choice_b);
    let cauchy_ty = arr(arena, seq, prop);
    let conv_in = arr(arena, real_id, prop);
    let conv_ty = arr(arena, seq, conv_in);
    let conv_exists_ty = arr(arena, seq, prop);
    (add_ty, sub_ty, neg_ty, abs_ty, le_ty, lt_ty, nat_le_ty, choice_ty, cauchy_ty, conv_ty, conv_exists_ty)
}

/// The Cauchy criterion over sequences `seq`.
fn cauchy_statement(arena: &mut Arena, seq: TermId) -> (r: TermId)
    requires
        seq@ < old(arena)@.len(),
        tree(old(arena)@, seq) == s_seq(),
    ensures
        keeps_trees(old(arena)@, final(arena)@),
        r@ < final(arena)@.len(),
        tree(final(arena)@, r) == s_cauchy_thm(),
{
    let s = arena.var(0);
    let kc = k(arena, "cauchy");
    let cs = arena.app(kc, s);
    let kce = k(arena, "conv_exists");
    let ces = arena.app(kce, s);
    let cauchy_body = arr(arena, cs, ces);
    arena.pi(seq, cauchy_body)
}

/// The type of `uniform`: `Π fs. Π f. uniform convergence of fs to f`.
fn uniform_type(arena: &mut Arena, nat_id: TermId, real_id: TermId, seq2: TermId, fun_real: TermId) -> (r:
    TermId)
    requires
        nat_id@ < old(arena)@.len(),
        real_id@ < old(arena)@.len(),
        seq2@ < old(arena)@.len(),
        fun_real@ < old(arena)@.len(),
        tree(old(arena)@, nat_id) == Syntax::Nat,
        tree(old(arena)@, real_id) == s_real(),
        tree(old(arena)@, seq2) == s_seq2(),
        tree(old(arena)@, fun_real) == s_fun_real(),
    ensures
        keeps_trees(old(arena)@, final(arena)@),
        r@ < final(arena)@.len(),
        tree(final(arena)@, r) == s_pi(
            s_seq2(),
            s_pi(s_fun_real(), s_uniform_conv(s_var(0), s_var(0))),
        ),
{
    let fs = arena.var(0);
    let f = arena.var(0);
    let uc = uniform_conv(arena, nat_id, real_id, fs, f);
    let uniform_in = arena.pi(fun_real, uc);
    arena.pi(seq2, uniform_in)
}

/// The hypothesis of the M-test, built from its parts.
fn mtest_hypothesis(
    arena: &mut Arena,
    nat_id: TermId,
    real_id: TermId,
    seq: TermId,
    seq2: TermId,
    fun_real: TermId,
) -> (r: (TermId, TermId, TermId))
    requires
        nat_id@ < old(arena)@.len(),
        real_id@ < old(arena)@.len(),
        seq@ < old(arena)@.len(),
        seq2@ < old(arena)@.len(),
        fun_real@ < old(arena)@.len(),
        tree(old(arena)@, nat_id) == Syntax::Nat,
        tree(old(arena)@, real_id) == s_real(),
        tree(old(arena)@, seq) == s_seq(),
        tree(old(arena)@, seq2) == s_seq2(),
        tree(old(arena)@, fun_real) == s_fun_real(),
    ensures
        keeps_trees(old(arena)@, final(arena)@),
        r.0@ < final(arena)@.len(),
        r.1@ < final(arena)@.len(),
        r.2@ < final(arena)@.len(),
        tree(final(arena)@, r.0) == s_rest(),
        tree(final(arena)@, r.1) == s_tail(),
        tree(final(arena)@, r.2) == s_mtest_hyp(),
{
    let kle = k(arena, "le");
    let kabs = k(arena, "abs");
    let v4 = arena.var(4);
    let v1 = arena.var(1);
    let v4_1 = arena.app(v4, v1);
    let v0 = arena.var(0);
    let v4_1_0 = arena.app(v4_1, v0);
    let abs_app = arena.app(kabs, v4_1_0);
    let le_abs = arena.app(kle, abs_app);
    let v2 = arena.var(2);
    let v1b = arena.var(1);
    let v2_1 = arena.app(v2, v1b);
    let le_app = arena.app(le_abs, v2_1);
    let dom_in = arena.pi(real_id, le_app);
    let dominated = arena.pi(nat_id, dom_in);
    assert(tree(arena@, dominated) == s_dominated());
    let kc2 = k(arena, "cauchy");
    let v0b = arena.var(0);
    let cauchy_v0 = arena.app(kc2, v0b);
    let rest_in = arena.sigma(cauchy_v0, dominated);
    let rest_ty = arena.sigma(seq, rest_in);
    assert(tree(arena@, rest_ty) == s_rest());
    let tail_ty = arena.sigma(fun_real, rest_ty);
    assert(tree(arena@, tail_ty) == s_tail());
    let mtest_hyp = arena.sigma(seq2, tail_ty);
    (rest_ty, tail_ty, mtest_hyp)
}

/// The M-test statement: `Π h : hypothesis. (Σ-elimination of h into uniform
/// convergence)`.
fn mtest_statement(
    arena: &mut Arena,
    seq2: TermId,
    fun_real: TermId,
    rest_ty: TermId,
    tail_ty: TermId,
    mtest_hyp: TermId,
) -> (r: TermId)
    requires
        seq2@ < old(arena)@.len(),
        fun_real@ < old(arena)@.len(),
        rest_ty@ < old(arena)@.len(),
        tail_ty@ < old(arena)@.len(),
        mtest_hyp@ < old(arena)@.len(),
        tree(old(arena)@, seq2) == s_seq2(),
        tree(old(arena)@, fun_real) == s_fun_real(),
        tree(old(arena)@, rest_ty) == s_rest(),
        tree(old(arena)@, tail_ty) == s_tail(),
        tree(old(arena)@, mtest_hyp) == s_mtest_hyp(),
    ensures
        keeps_trees(old(arena)@, final(arena)@),
        r@ < final(arena)@.len(),
        tree(final(arena)@, r) == s_mtest_stmt(),
{
    let h = arena.var(0);
    let ku = k(arena, "uniform");
    let h0 = arena.var(0);
    let fst_h = arena.fst(h0);
    let u_fst = arena.app(ku, fst_h);
    let h0b = arena.var(0);
    let snd_h = arena.snd(h0b);
    let fst_snd_h = arena.fst(snd_h);
    let u_app = arena.app(u_fst, fst_snd_h);
    let motive = arena.lam(mtest_hyp, u_app);
    assert(tree(arena@, motive) == s_lam(
        s_mtest_hyp(),
        s_app2(s_const("uniform"@), s_fst(s_var(0)), s_fst(s_snd(s_var(0)))),
    ));
    let ku2 = k(arena, "uniform");
    let w1 = arena.var(1);
    let u_w1 = arena.app(ku2, w1);
    let w0 = arena.var(0);
    let fst_w0 = arena.fst(w0);
    let inner_body = arena.app(u_w1, fst_w0);
    let inner_motive = arena.lam(tail_ty, inner_body);
    assert(tree(arena@, inner_motive) == s_lam(
        s_tail(),
        s_app2(s_const("uniform"@), s_var(1), s_fst(s_var(0))),
    ));
    let ku3 = k(arena, "uniform");
    let x2 = arena.var(2);
    let u_x2 = arena.app(ku3, x2);
    let x1 = arena.var(1);
    let u_x2_x1 = arena.app(u_x2, x1);
    let inner_elim_in = arena.lam(rest_ty, u_x2_x1);
    let inner_elim = arena.lam(fun_real, inner_elim_in);
    assert(tree(arena@, inner_elim) == s_lam(
        s_fun_real(),
        s_lam(s_rest(), s_app2(s_const("uniform"@), s_var(2), s_var(1))),
    ));
    let y0 = arena.var(0);
    let inner = arena.sigma_elim(inner_motive, inner_elim, y0);
    let elim_in = arena.lam(tail_ty, inner);
    let elim = arena.lam(seq2, elim_in);
    let body = arena.sigma_elim(motive, elim, h);
    arena.pi(mtest_hyp, body)
}

/// The three proofs: the axioms `cauchy_pf`, `uniform_from_cauchy` and `mtest`,
/// each annotated with (the handle of) the statement it proves.
fn proof_terms(arena: &mut Arena, cauchy_thm: TermId, mtest_stmt: TermId) -> (r: (TermId, TermId, TermId))
    requires
        cauchy_thm@ < old(arena)@.len(),
        mtest_stmt@ < old(arena)@.len(),
    ensures
        keeps_trees(old(arena)@, final(arena)@),
        r.0@ < final(arena)@.len(),
        r.1@ < final(arena)@.len(),
        r.2@ < final(arena)@.len(),
        tree(final(arena)@, r.0) == s_ann(s_const("cauchy_pf"@), tree(old(arena)@, cauchy_thm)),
        tree(final(arena)@, r.1) == s_ann(s_const("uniform_from_cauchy"@), tree(old(arena)@, mtest_stmt)),
        tree(final(arena)@, r.2) == s_ann(s_const("mtest"@), tree(old(arena)@, mtest_stmt)),
        final(arena)@[r.0@ as int] is Ann && final(arena)@[r.0@ as int]->Ann_1 == cauchy_thm,
        final(arena)@[r.1@ as int] is Ann && final(arena)@[r.1@ as int]->Ann_1 == mtest_stmt,
        final(arena)@[r.2@ as int] is Ann && final(arena)@[r.2@ as int]->Ann_1 == mtest_stmt,
{
    let kpf = k(arena, "cauchy_pf");
    let cauchy_proof = arena.ann(kpf, cauchy_thm);
    let kufc = k(arena, "uniform_from_cauchy");
    let uniform_proof = arena.ann(kufc, mtest_stmt);
    let kmt = k(arena, "mtest");
    let mtest_proof = arena.ann(kmt, mtest_stmt);
    (cauchy_proof, uniform_proof, mtest_proof)
}

/// The types that the analysis development gives its axioms.
struct AnalysisTypes {
    t_real: TermId,
    t_prop: TermId,
    real_id: TermId,
    add_ty: TermId,
    sub_ty: TermId,
    neg_ty: TermId,
    abs_ty: TermId,
    le_ty: TermId,
    lt_ty: TermId,
    nat_le_ty: TermId,
    choice_ty: TermId,
    cauchy_ty: TermId,
    conv_ty: TermId,
    conv_exists_ty: TermId,
    cauchy_thm: TermId,
    uniform_ty: TermId,
    mtest_stmt: TermId,
}

/// `sig` with the analysis axioms registered, in order.
spec fn analysis_signature(sig: Map<Seq<char>, Entry>, t: AnalysisTypes) -> Map<Seq<char>, Entry> {
    sig.insert("Real"@, Entry::Axiom { ty: t.t_real }).insert(
        "Prop"@,
        Entry::Axiom { ty: t.t_prop },
    ).insert("zero"@, Entry::Axiom { ty: t.real_id }).insert(
        "one"@,
        Entry::Axiom { ty: t.real_id },
    ).insert("add"@, Entry::Axiom { ty: t.add_ty }).insert(
        "sub"@,
        Entry::Axiom { ty: t.sub_ty },
    ).insert("neg"@, Entry::Axiom { ty: t.neg_ty }).insert(
        "abs"@,
        Entry::Axiom { ty: t.abs_ty },
    ).insert("le"@, Entry::Axiom { ty: t.le_ty }).insert(
        "lt"@,
        Entry::Axiom { ty: t.lt_ty },
    ).insert("nat_le"@, Entry::Axiom { ty: t.nat_le_ty }).insert(
        "choice"@,
        Entry::Axiom { ty: t.choice_ty },
    ).insert("cauchy"@, Entry::Axiom { ty: t.cauchy_ty }).insert(
        "conv"@,
        Entry::Axiom { ty: t.conv_ty },
    ).insert("conv_exists"@, Entry::Axiom { ty: t.conv_exists_ty }).insert(
        "complete"@,
        Entry::Axiom { ty: t.cauchy_thm },
    ).insert("cauchy_crit"@, Entry::Axiom { ty: t.cauchy_thm }).insert(
        "cauchy_pf"@,
        Entry::Axiom { ty: t.cauchy_thm },
    ).insert("uniform"@, Entry::Axiom { ty: t.uniform_ty }).insert(
        "uniform_from_cauchy"@,
        Entry::Axiom { ty: t.mtest_stmt },
    ).insert("mtest"@, Entry::Axiom { ty: t.mtest_stmt })
}

fn register_analysis_axioms(sig: &mut Signature, t: &AnalysisTypes)
    ensures
        final(sig)@ == analysis_signature(old(sig)@, *t),
{
    register_axiom(sig, "Real", t.t_real);
    register_axiom(sig, "Prop", t.t_prop);
    register_axiom(sig, "zero", t.real_id);
    register_axiom(sig, "one", t.real_id);
    register_axiom(sig, "add", t.add_ty);
    register_axiom(sig, "sub", t.sub_ty);
    register_axiom(sig, "neg", t.neg_ty);
    register_axiom(sig, "abs", t.abs_ty);
    register_axiom(sig, "le", t.le_ty);
    register_axiom(sig, "lt", t.lt_ty);
    register_axiom(sig, "nat_le", t.nat_le_ty);
    register_axiom(sig, "choice", t.choice_ty);
    register_axiom(sig, "cauchy", t.cauchy_ty);
    register_axiom(sig, "conv", t.conv_ty);
    register_axiom(sig, "conv_exists", t.conv_exists_ty);
    register_axiom(sig, "complete", t.cauchy_thm);
    register_axiom(sig, "cauchy_crit", t.cauchy_thm);
    register_axiom(sig, "cauchy_pf", t.cauchy_thm);
    register_axiom(sig, "uniform", t.uniform_ty);
    register_axiom(sig, "uniform_from_cauchy", t.mtest_stmt);
    register_axiom(sig, "mtest", t.mtest_stmt);
}

/// The registered axioms have the types of `analysis_axiom_type`, and no other
/// entry changes.
#[verifier::rlimit(100)]
proof fn lemma_analysis_signature(sig: Map<Seq<char>, Entry>, a: Seq<TermData>, l0: usize, t: AnalysisTypes)
    requires
        l0 + 2 <= usize::MAX,
        t.t_real@ < a.len() && tree(a, t.t_real) == Syntax::Type(LevelVar(l0)),
        t.t_prop@ < a.len() && tree(a, t.t_prop) == Syntax::Type(LevelVar((l0 + 1) as usize)),
        t.real_id@ < a.len() && tree(a, t.real_id) == s_real(),
        t.add_ty@ < a.len() && tree(a, t.add_ty) == s_pi(s_real(), s_pi(s_real(), s_real())),
        t.sub_ty@ < a.len() && tree(a, t.sub_ty) == s_pi(s_real(), s_pi(s_real(), s_real())),
        t.neg_ty@ < a.len() && tree(a, t.neg_ty) == s_pi(s_real(), s_real()),
        t.abs_ty@ < a.len() && tree(a, t.abs_ty) == s_pi(s_real(), s_real()),
        t.le_ty@ < a.len() && tree(a, t.le_ty) == s_pi(s_real(), s_pi(s_real(), s_prop())),
        t.lt_ty@ < a.len() && tree(a, t.lt_ty) == s_pi(s_real(), s_pi(s_real(), s_prop())),
        t.nat_le_ty@ < a.len() && tree(a, t.nat_le_ty) == s_pi(
            Syntax::Nat,
            s_pi(Syntax::Nat, s_prop()),
        ),
        t.choice_ty@ < a.len() && tree(a, t.choice_ty) == s_pi(
            s_prop(),
            s_pi(s_prop(), s_pi(s_pi(s_prop(), s_prop()), s_prop())),
        ),
        t.cauchy_ty@ < a.len() && tree(a, t.cauchy_ty) == s_pi(s_seq(), s_prop()),
        t.conv_ty@ < a.len() && tree(a, t.conv_ty) == s_pi(s_seq(), s_pi(s_real(), s_prop())),
        t.conv_exists_ty@ < a.len() && tree(a, t.conv_exists_ty) == s_pi(s_seq(), s_prop()),
        t.cauchy_thm@ < a.len() && tree(a, t.cauchy_thm) == s_cauchy_thm(),
        t.uniform_ty@ < a.len() && tree(a, t.uniform_ty) == s_pi(
            s_seq2(),
            s_pi(s_fun_real(), s_uniform_conv(s_var(0), s_var(0))),
        ),
        t.mtest_stmt@ < a.len() && tree(a, t.mtest_stmt) == s_mtest_stmt(),
    ensures
        forall|name: Seq<char>|
            #![trigger analysis_signature(sig, t).contains_key(name)]
            analysis_axiom_type(name, l0) is Some ==> {
                let s = analysis_signature(sig, t);
                &&& s.contains_key(name)
                &&& s[name] is Axiom
                &&& s[name]->Axiom_ty@ < a.len()
                &&& tree(a, s[name]->Axiom_ty) == analysis_axiom_type(name, l0).unwrap()
            },
        forall|name: Seq<char>|
            #![trigger analysis_signature(sig, t).contains_key(name)]
            analysis_axiom_type(name, l0) is None ==> {
                let s = analysis_signature(sig, t);
                &&& s.contains_key(name) == sig.contains_key(name)
                &&& sig.contains_key(name) ==> s[name] == sig[name]
            },
{
    reveal_strlit("Real");
    assert("Real"@.len() == 4 && "Real"@[0] == 'R' && "Real"@[1] == 'e');
    reveal_strlit("Prop");
    assert("Prop"@.len() == 4 && "Prop"@[0] == 'P' && "Prop"@[1] == 'r');
    reveal_strlit("zero");
    assert("zero"@.len() == 4 && "zero"@[0] == 'z' && "zero"@[1] == 'e');
    reveal_strlit("one");
    assert("one"@.len() == 3 && "one"@[0] == 'o' && "one"@[1] == 'n');
    reveal_strlit("add");
    assert("add"@.len() == 3 && "add"@[0] == 'a' && "add"@[1] == 'd');
    reveal_strlit("sub");
    assert("sub"@.len() == 3 && "sub"@[0] == 's' && "sub"@[1] == 'u');
    reveal_strlit("neg");
    assert("neg"@.len() == 3 && "neg"@[0] == 'n' && "neg"@[1] == 'e');
    reveal_strlit("abs");
    assert("abs"@.len() == 3 && "abs"@[0] == 'a' && "abs"@[1] == 'b');
    reveal_strlit("le");
    assert("le"@.len() == 2 && "le"@[0] == 'l' && "le"@[1] == 'e');
    reveal_strlit("lt");
    assert("lt"@.len() == 2 && "lt"@[0] == 'l' && "lt"@[1] == 't');
    reveal_strlit("nat_le");
    assert("nat_le"@.len() == 6 && "nat_le"@[0] == 'n' && "nat_le"@[1] == 'a');
    reveal_strlit("choice");
    assert("choice"@.len() == 6 && "choice"@[0] == 'c' && "choice"@[1] == 'h');
    reveal_strlit("cauchy");
    assert("cauchy"@.len() == 6 && "cauchy"@[0] == 'c' && "cauchy"@[1] == 'a');
    reveal_strlit("conv");
    assert("conv"@.len() == 4 && "conv"@[0] == 'c' && "conv"@[1] == 'o');
    reveal_strlit("conv_exists");
    assert("conv_exists"@.len() == 11 && "conv_exists"@[0] == 'c' && "conv_exists"@[1] == 'o');
    reveal_strlit("complete");
    assert("complete"@.len() == 8 && "complete"@[0] == 'c' && "complete"@[1] == 'o');
    reveal_strlit("cauchy_crit");
    assert("cauchy_crit"@.len() == 11 && "cauchy_crit"@[0] == 'c' && "cauchy_crit"@[1] == 'a');
    reveal_strlit("cauchy_pf");
    assert("cauchy_pf"@.len() == 9 && "cauchy_pf"@[0] == 'c' && "cauchy_pf"@[1] == 'a');
    reveal_strlit("uniform");
    assert("uniform"@.len() == 7 && "uniform"@[0] == 'u' && "uniform"@[1] == 'n');
    reveal_strlit("uniform_from_cauchy");
    assert("uniform_from_cauchy"@.len() == 19 && "uniform_from_cauchy"@[0] == 'u' && "uniform_from_cauchy"@[1] == 'n');
    reveal_strlit("mtest");
    assert("mtest"@.len() == 5 && "mtest"@[0] == 'm' && "mtest"@[1] == 't');
    let s = analysis_signature(sig, t);
    assert forall|name: Seq<char>| analysis_axiom_type(name, l0) is Some implies {
        &&& #[trigger] s.contains_key(name)
        &&& s[name] is Axiom
        &&& s[name]->Axiom_ty@ < a.len()
        &&& tree(a, s[name]->Axiom_ty) == analysis_axiom_type(name, l0).unwrap()
    } by {
        if name == "Real"@ {
        } else if name == "Prop"@ {
        } else if name == "zero"@ {
        } else if name == "one"@ {
        } else if name == "add"@ {
        } else if name == "sub"@ {
        } else if name == "neg"@ {
        } else if name == "abs"@ {
        } else if name == "le"@ {
        } else if name == "lt"@ {
        } else if name == "nat_le"@ {
        } else if name == "choice"@ {
        } else if name == "cauchy"@ {
        } else if name == "conv"@ {
        } else if name == "conv_exists"@ {
        } else if name == "complete"@ {
        } else if name == "cauchy_crit"@ {
        } else if name == "cauchy_pf"@ {
        } else if name == "uniform"@ {
        } else if name == "uniform_from_cauchy"@ {
        } else if name == "mtest"@ {
        }
    }
}

/// Builds the real-analysis development: registers its axioms in `sig` (the
/// universes `Real` and `Prop` take fresh universe variables from `levels`) and
/// returns the Cauchy criterion and the M-test statement with their proofs.
#[verifier::rlimit(100)]
pub fn build_analysis(arena: &mut Arena, sig: &mut Signature, levels: &mut ConstraintSet) -> (r:
    Analysis)
    requires
        old(levels)@.fresh + 2 <= usize::MAX,
    ensures
        keeps_trees(old(arena)@, final(arena)@),
        final(levels)@ == fresh_s(fresh_s(old(levels)@)),
        r.cauchy_thm@ < final(arena)@.len(),
        r.cauchy_proof@ < final(arena)@.len(),
        r.mtest_stmt@ < final(arena)@.len(),
        r.uniform_proof@ < final(arena)@.len(),
        r.mtest_proof@ < final(arena)@.len(),
        tree(final(arena)@, r.cauchy_thm) == s_cauchy_thm(),
        tree(final(arena)@, r.cauchy_proof) == s_ann(s_const("cauchy_pf"@), s_cauchy_thm()),
        tree(final(arena)@, r.mtest_stmt) == s_mtest_stmt(),
        tree(final(arena)@, r.uniform_proof) == s_ann(
            s_const("uniform_from_cauchy"@),
            s_mtest_stmt(),
        ),
        tree(final(arena)@, r.mtest_proof) == s_ann(s_const("mtest"@), s_mtest_stmt()),
        final(arena)@[r.cauchy_proof@ as int] is Ann,
        final(arena)@[r.cauchy_proof@ as int]->Ann_1 == r.cauchy_thm,
        final(arena)@[r.uniform_proof@ as int] is Ann,
        final(arena)@[r.uniform_proof@ as int]->Ann_1 == r.mtest_stmt,
        final(arena)@[r.mtest_proof@ as int] is Ann,
        final(arena)@[r.mtest_proof@ as int]->Ann_1 == r.mtest_stmt,
        forall|name: Seq<char>|
            #![trigger final(sig)@.contains_key(name)]
            analysis_axiom_type(name, old(levels)@.fresh) is Some ==> {
                &&& final(sig)@.contains_key(name)
                &&& final(sig)@[name] is Axiom
                &&& final(sig)@[name]->Axiom_ty@ < final(arena)@.len()
                &&& tree(final(arena)@, final(sig)@[name]->Axiom_ty) == analysis_axiom_type(
                    name,
                    old(levels)@.fresh,
                ).unwrap()
            },
        forall|name: Seq<char>|
            #![trigger final(sig)@.contains_key(name)]
            analysis_axiom_type(name, old(levels)@.fresh) is None ==> {
                &&& final(sig)@.contains_key(name) == old(sig)@.contains_key(name)
                &&& old(sig)@.contains_key(name) ==> final(sig)@[name] == old(sig)@[name]
            },
{
    let ghost l0 = levels@.fresh;
    let l_real = levels.fresh();
    let t_real = arena.typ(l_real);
    let l_prop = levels.fresh();
    let t_prop = arena.typ(l_prop);
    let real_id = k(arena, "Real");
    let prop = k(arena, "Prop");
    let nat_id = arena.nat_type();
    let seq = arr(arena, nat_id, real_id);
    let rr = arr(arena, real_id, real_id);
    let seq2 = arr(arena, nat_id, rr);
    let fun_real = arr(arena, real_id, real_id);
    assert(tree(arena@, seq) == s_seq());
    assert(tree(arena@, seq2) == s_seq2());
    let (add_ty, sub_ty, neg_ty, abs_ty, le_ty, lt_ty, nat_le_ty, choice_ty, cauchy_ty, conv_ty, conv_exists_ty) =
        operation_types(arena, real_id, prop, nat_id, seq);
    let cauchy_thm = cauchy_statement(arena, seq);
    let uniform_ty = uniform_type(arena, nat_id, real_id, seq2, fun_real);
    let (rest_ty, tail_ty, mtest_hyp) = mtest_hypothesis(arena, nat_id, real_id, seq, seq2, fun_real);
    let mtest_stmt = mtest_statement(arena, seq2, fun_real, rest_ty, tail_ty, mtest_hyp);
    let (cauchy_proof, uniform_proof, mtest_proof) = proof_terms(arena, cauchy_thm, mtest_stmt);

    let ghost sig0 = sig@;
    let ids = AnalysisTypes {
        t_real,
        t_prop,
        real_id,
        add_ty,
        sub_ty,
        neg_ty,
        abs_ty,
        le_ty,
        lt_ty,
        nat_le_ty,
        choice_ty,
        cauchy_ty,
        conv_ty,
        conv_exists_ty,
        cauchy_thm,
        uniform_ty,
        mtest_stmt,
    };
    register_analysis_axioms(sig, &ids);
    proof {
        lemma_analysis_signature(sig0, arena@, l0, ids);
    }
    Analysis { cauchy_thm, cauchy_proof, mtest_stmt, uniform_proof, mtest_proof }
}

} // verus!

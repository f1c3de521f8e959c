use std::collections::HashMap;
use vstd::prelude::*;

verus! {

broadcast use vstd::std_specs::hash::group_hash_axioms;

/// A universe level unification variable.
#[derive(Clone, Copy, Debug, PartialEq, Eq, Hash, Structural)]
pub struct LevelVar(pub usize);

/// Universe levels built from variables, zero and successor.
#[derive(Debug, PartialEq, Eq)]
pub enum Level {
    Var(LevelVar),
    Zero,
    Succ(Box<Level>),
}

/// The solver rejects a constraint set that forces a successor below zero.
#[derive(Clone, Copy, Debug, PartialEq, Eq)]
pub enum LevelError {
    Inconsistent,
}

impl Level {
    pub fn var(v: LevelVar) -> (r: Self)
        ensures
            r == Level::Var(v),
    {
        Level::Var(v)
    }

    pub fn succ(self) -> (r: Self)
        ensures
            r == Level::Succ(Box::new(self)),
    {
        Level::Succ(Box::new(self))
    }

    /// A copy of the level, equal to it.
    pub(crate) fn copy(&self) -> (r: Self)
        ensures
            r == *self,
        decreases self,
    {
        match self {
            Level::Var(v) => Level::Var(*v),
            Level::Zero => Level::Zero,
            Level::Succ(inner) => Level::Succ(Box::new((&**inner).copy())),
        }
    }
}

impl Clone for Level {
    fn clone(&self) -> (r: Self)
        ensures
            r == *self,
    {
        self.copy()
    }
}

/// The `n`-fold successor of zero.
pub open spec fn succ_n(n: nat) -> Level
    decreases n,
{
    if n == 0 {
        Level::Zero
    } else {
        Level::Succ(Box::new(succ_n((n - 1) as nat)))
    }
}

/// The number of successors on top of `l`.
pub open spec fn succs(l: Level) -> nat
    decreases l,
{
    match l {
        Level::Succ(inner) => succs(*inner) + 1,
        _ => 0,
    }
}

/// The variable under the successors of `l`, if any (`None`: `l` is closed).
pub open spec fn base(l: Level) -> Option<usize>
    decreases l,
{
    match l {
        Level::Succ(inner) => base(*inner),
        Level::Var(v) => Some(v.0),
        Level::Zero => None,
    }
}

/// The value that a valuation gives variable `v` (zero when it gives none).
pub open spec fn var_value(rho: Map<usize, nat>, v: usize) -> nat {
    if rho.contains_key(v) {
        rho[v]
    } else {
        0
    }
}

/// The natural number `l` denotes when variables take their values from `rho`.
pub open spec fn level_value(rho: Map<usize, nat>, l: Level) -> nat
    decreases l,
{
    match l {
        Level::Zero => 0,
        Level::Succ(inner) => level_value(rho, *inner) + 1,
        Level::Var(v) => var_value(rho, v.0),
    }
}

/// `l` with every assigned variable replaced by its assignment.
pub open spec fn subst(assign: Map<usize, Level>, l: Level) -> Level
    decreases l,
{
    match l {
        Level::Var(v) => if assign.contains_key(v.0) {
            assign[v.0]
        } else {
            l
        },
        Level::Zero => Level::Zero,
        Level::Succ(inner) => Level::Succ(Box::new(subst(assign, *inner))),
    }
}

/// `rho` meets every constraint `a <= b` of `leq`, read under the assignment.
pub open spec fn satisfies(rho: Map<usize, nat>, assign: Map<usize, Level>, leq: Seq<(Level, Level)>) -> bool {
    forall|i: int|
        0 <= i < leq.len() ==> #[trigger] level_value(rho, subst(assign, leq[i].0)) <= level_value(
            rho,
            subst(assign, leq[i].1),
        )
}

/// Every value `rho` gives is at most `b`.
pub open spec fn bounded(rho: Map<usize, nat>, b: nat) -> bool {
    forall|v: usize| #[trigger] rho.contains_key(v) ==> rho[v] <= b
}

/// The number of successors in all the constraints, read under the assignment.
pub open spec fn weight(assign: Map<usize, Level>, leq: Seq<(Level, Level)>) -> nat
    decreases leq.len(),
{
    if leq.len() == 0 {
        0
    } else {
        weight(assign, leq.drop_last()) + succs(subst(assign, leq.last().0)) + succs(
            subst(assign, leq.last().1),
        )
    }
}

/// The assignment that gives each variable of `rho` its value as a numeral.
pub open spec fn numerals(rho: Map<usize, nat>) -> Map<usize, Level> {
    Map::new(|v: usize| rho.contains_key(v), |v: usize| succ_n(rho[v]))
}

/// The abstract state of a constraint set: the next fresh variable, the solved
/// assignment (keyed by variable number; each value closed) and the pending
/// `a <= b` constraints.
pub struct LevelsView {
    pub fresh: usize,
    pub assign: Map<usize, Level>,
    pub leq: Seq<(Level, Level)>,
}

/// Universe constraints collected during checking, with the solver state.
pub struct ConstraintSet {
    fresh: usize,
    assign: HashMap<usize, Level>,
    leq: Vec<(Level, Level)>,
}

impl View for ConstraintSet {
    type V = LevelsView;

    closed spec fn view(&self) -> LevelsView {
        LevelsView { fresh: self.fresh, assign: self.assign@, leq: self.leq@ }
    }
}

/// Every assigned level is closed.
pub open spec fn assign_closed(assign: Map<usize, Level>) -> bool {
    forall|k: usize| #[trigger] assign.contains_key(k) ==> base(assign[k]) is None
}

pub open spec fn push_leq(cs: LevelsView, a: Level, b: Level) -> LevelsView {
    LevelsView { leq: cs.leq.push((a, b)), ..cs }
}

/// The state after recording `a == b` as the two constraints `a <= b` and `b <= a`.
pub open spec fn equate_s(cs: LevelsView, a: Level, b: Level) -> LevelsView {
    push_leq(push_leq(cs, a, b), b, a)
}

/// `b` extends the constraints of `a`: the same solved assignment, at least as
/// many variables handed out, and the pending constraints of `a` still in place
/// below any new ones.
pub open spec fn collects(a: LevelsView, b: LevelsView) -> bool {
    &&& b.assign == a.assign
    &&& a.fresh <= b.fresh
    &&& a.leq.len() <= b.leq.len()
    &&& forall|i: int| 0 <= i < a.leq.len() ==> #[trigger] b.leq[i] == a.leq[i]
}

/// The state after taking a fresh variable.
pub open spec fn fresh_s(cs: LevelsView) -> LevelsView {
    LevelsView { fresh: (cs.fresh + 1) as usize, ..cs }
}

/// The value of a node of the solver's graph: node 0 stands for zero, node `j`
/// for variable `vars[j]`.
spec fn node_value(rho: Map<usize, nat>, vars: Seq<usize>, j: int) -> nat {
    if j == 0 {
        0
    } else {
        var_value(rho, vars[j])
    }
}

/// Edge `(x, k, y, m)` says `x + k <= y + m`.
spec fn edges_hold(rho: Map<usize, nat>, vars: Seq<usize>, edges: Seq<(usize, usize, usize, usize)>) -> bool {
    forall|i: int|
        0 <= i < edges.len() ==> node_value(rho, vars, #[trigger] edges[i].0 as int) + edges[i].1
            <= node_value(rho, vars, edges[i].2 as int) + edges[i].3
}

/// The edges encode the first `n` constraints of `leq` under `assign`.
spec fn encodes(
    assign: Map<usize, Level>,
    leq: Seq<(Level, Level)>,
    vars: Seq<usize>,
    edges: Seq<(usize, usize, usize, usize)>,
) -> bool {
    &&& edges.len() <= leq.len()
    &&& forall|i: int|
        0 <= i < edges.len() ==> {
            &&& #[trigger] edges[i].1 == succs(subst(assign, leq[i].0))
            &&& edges[i].3 == succs(subst(assign, leq[i].1))
            &&& node_of(vars, edges[i].0, base(subst(assign, leq[i].0)))
            &&& node_of(vars, edges[i].2, base(subst(assign, leq[i].1)))
        }
}

/// Node `j` stands for the base `b` of a level.
spec fn node_of(vars: Seq<usize>, j: usize, b: Option<usize>) -> bool {
    &&& j < vars.len()
    &&& match b {
        None => j == 0,
        Some(v) => j > 0 && vars[j as int] == v,
    }
}

/// The variables of the graph are distinct.
spec fn distinct_nodes(vars: Seq<usize>) -> bool {
    forall|i: int, j: int| 1 <= i < vars.len() && 1 <= j < vars.len() && i != j ==> #[trigger] vars[i] != #[trigger] vars[j]
}

pub proof fn lemma_level_value(rho: Map<usize, nat>, l: Level)
    ensures
        level_value(rho, l) == succs(l) + match base(l) {
            Some(v) => var_value(rho, v),
            None => 0,
        },
    decreases l,
{
    if let Level::Succ(inner) = l {
        lemma_level_value(rho, *inner);
    }
}

proof fn lemma_subst_base(assign: Map<usize, Level>, l: Level)
    requires
        assign_closed(assign),
    ensures
        base(subst(assign, l)) matches Some(v) ==> !assign.contains_key(v),
    decreases l,
{
    if let Level::Succ(inner) = l {
        lemma_subst_base(assign, *inner);
    }
}

proof fn lemma_succ_n(n: nat)
    ensures
        base(succ_n(n)) is None,
        succs(succ_n(n)) == n,
    decreases n,
{
    if n > 0 {
        lemma_succ_n((n - 1) as nat);
    }
}

proof fn lemma_weight(assign: Map<usize, Level>, leq: Seq<(Level, Level)>, i: int)
    requires
        0 <= i < leq.len(),
    ensures
        succs(subst(assign, leq[i].0)) + succs(subst(assign, leq[i].1)) <= weight(assign, leq),
    decreases leq.len(),
{
    if i < leq.len() - 1 {
        lemma_weight(assign, leq.drop_last(), i);
    }
}

proof fn lemma_weight_prefix(assign: Map<usize, Level>, leq: Seq<(Level, Level)>, n: int)
    requires
        0 <= n < leq.len(),
    ensures
        weight(assign, leq.subrange(0, n + 1)) == weight(assign, leq.subrange(0, n)) + succs(
            subst(assign, leq[n].0),
        ) + succs(subst(assign, leq[n].1)),
{
    assert(leq.subrange(0, n + 1).drop_last() =~= leq.subrange(0, n));
}

proof fn lemma_weight_subrange(assign: Map<usize, Level>, leq: Seq<(Level, Level)>, n: int)
    requires
        0 <= n <= leq.len(),
    ensures
        weight(assign, leq.subrange(0, n)) <= weight(assign, leq),
    decreases leq.len(),
{
    if n == leq.len() {
        assert(leq.subrange(0, n) =~= leq);
    } else {
        lemma_weight_subrange(assign, leq.drop_last(), n);
        assert(leq.drop_last().subrange(0, n) =~= leq.subrange(0, n));
    }
}

proof fn lemma_encodes_push(
    assign: Map<usize, Level>,
    leq: Seq<(Level, Level)>,
    i: int,
    vars0: Seq<usize>,
    vars1: Seq<usize>,
    edges: Seq<(usize, usize, usize, usize)>,
    e: (usize, usize, usize, usize),
)
    requires
        0 <= i < leq.len(),
        edges.len() == i,
        encodes(assign, leq.subrange(0, i), vars0, edges),
        vars0.len() <= vars1.len(),
        forall|t: int| 0 <= t < vars0.len() ==> vars1[t] == vars0[t],
        e.1 == succs(subst(assign, leq[i].0)),
        e.3 == succs(subst(assign, leq[i].1)),
        node_of(vars1, e.0, base(subst(assign, leq[i].0))),
        node_of(vars1, e.2, base(subst(assign, leq[i].1))),
    ensures
        encodes(assign, leq.subrange(0, i + 1), vars1, edges.push(e)),
{
    let s0 = leq.subrange(0, i);
    let s1 = leq.subrange(0, i + 1);
    let es = edges.push(e);
    assert forall|t: int| 0 <= t < es.len() implies {
        &&& #[trigger] es[t].1 == succs(subst(assign, s1[t].0))
        &&& es[t].3 == succs(subst(assign, s1[t].1))
        &&& node_of(vars1, es[t].0, base(subst(assign, s1[t].0)))
        &&& node_of(vars1, es[t].2, base(subst(assign, s1[t].1)))
    } by {
        assert(s1[t] == leq[t]);
        if t < i {
            assert(s0[t] == leq[t]);
            assert(es[t] == edges[t]);
            assert(edges[t].1 == succs(subst(assign, s0[t].0)));
            assert(node_of(vars0, edges[t].0, base(subst(assign, s0[t].0))));
            assert(node_of(vars0, edges[t].2, base(subst(assign, s0[t].1))));
        } else {
            assert(es[t] == e);
        }
    }
}

/// The graph encoding relates valuations of the constraints and of the edges.
proof fn lemma_encoding(
    rho: Map<usize, nat>,
    assign: Map<usize, Level>,
    leq: Seq<(Level, Level)>,
    vars: Seq<usize>,
    edges: Seq<(usize, usize, usize, usize)>,
)
    requires
        encodes(assign, leq, vars, edges),
        edges.len() == leq.len(),
    ensures
        satisfies(rho, assign, leq) <==> edges_hold(rho, vars, edges),
{
    assert forall|i: int| 0 <= i < leq.len() implies level_value(rho, subst(assign, leq[i].0))
        == node_value(rho, vars, edges[i].0 as int) + edges[i].1 && level_value(rho, subst(assign, leq[i].1))
        == node_value(rho, vars, edges[i].2 as int) + edges[i].3 by {
        assert(edges[i].1 == succs(subst(assign, leq[i].0)));
        lemma_level_value(rho, subst(assign, leq[i].0));
        lemma_level_value(rho, subst(assign, leq[i].1));
    }
    if satisfies(rho, assign, leq) {
        assert forall|i: int| 0 <= i < edges.len() implies node_value(rho, vars, #[trigger] edges[i].0 as int)
            + edges[i].1 <= node_value(rho, vars, edges[i].2 as int) + edges[i].3 by {
            assert(level_value(rho, subst(assign, leq[i].0)) <= level_value(rho, subst(assign, leq[i].1)));
        }
    }
    if edges_hold(rho, vars, edges) {
        assert forall|i: int| 0 <= i < leq.len() implies #[trigger] level_value(rho, subst(assign, leq[i].0))
            <= level_value(rho, subst(assign, leq[i].1)) by {
            assert(node_value(rho, vars, edges[i].0 as int) + edges[i].1 <= node_value(rho, vars, edges[i].2 as int)
                + edges[i].3);
        }
    }
}

/// The sum of a sequence of numbers.
spec fn total(s: Seq<usize>) -> nat
    decreases s.len(),
{
    if s.len() == 0 {
        0
    } else {
        (total(s.drop_last()) + s.last()) as nat
    }
}

proof fn lemma_total_update(s: Seq<usize>, j: int, x: usize)
    requires
        0 <= j < s.len(),
    ensures
        total(s.update(j, x)) + s[j] == total(s) + x,
    decreases s.len(),
{
    if j < s.len() - 1 {
        lemma_total_update(s.drop_last(), j, x);
        assert(s.update(j, x).drop_last() =~= s.drop_last().update(j, x));
    } else {
        assert(s.update(j, x).drop_last() =~= s.drop_last());
    }
}

proof fn lemma_total_bound(s: Seq<usize>, b: nat)
    requires
        forall|j: int| 0 <= j < s.len() ==> s[j] <= b,
    ensures
        total(s) <= s.len() * b,
    decreases s.len(),
{
    if s.len() > 0 {
        lemma_total_bound(s.drop_last(), b);
        assert(total(s) <= (s.len() - 1) * b + b) by (nonlinear_arith)
            requires
                total(s) == total(s.drop_last()) + s.last(),
                total(s.drop_last()) <= (s.len() - 1) * b,
                s.last() <= b,
        ;
        assert((s.len() - 1) * b + b == s.len() * b) by (nonlinear_arith);
    }
}

/// The numeral `n` as a level.
fn numeral(n: usize) -> (r: Level)
    ensures
        r == succ_n(n as nat),
{
    let mut lvl = Level::Zero;
    let mut c: usize = 0;
    while c < n
        invariant
            c <= n,
            lvl == succ_n(c as nat),
        decreases n - c,
    {
        lvl = lvl.succ();
        c = c + 1;
    }
    lvl
}

/// Point `s` lies within `c` above one of `vals`.
spec fn covered(vals: Seq<nat>, c: nat, s: nat) -> bool {
    exists|j: int| 0 <= j < vals.len() && vals[j] <= s && s < vals[j] + c
}

/// The number of covered points below `t`: a monotone map that keeps every
/// distance of at most `c` above a point of `vals` and shrinks all others.
spec fn squash(vals: Seq<nat>, c: nat, t: nat) -> nat
    decreases t,
{
    if t == 0 {
        0
    } else {
        squash(vals, c, (t - 1) as nat) + if covered(vals, c, (t - 1) as nat) {
            1nat
        } else {
            0nat
        }
    }
}

proof fn lemma_squash_mono(vals: Seq<nat>, c: nat, a: nat, b: nat)
    requires
        a <= b,
    ensures
        squash(vals, c, a) <= squash(vals, c, b),
        squash(vals, c, b) - squash(vals, c, a) <= b - a,
    decreases b,
{
    if a < b {
        lemma_squash_mono(vals, c, a, (b - 1) as nat);
    }
}

proof fn lemma_squash_keeps(vals: Seq<nat>, c: nat, j: int, d: nat)
    requires
        0 <= j < vals.len(),
        d <= c,
    ensures
        squash(vals, c, vals[j] + d) == squash(vals, c, vals[j]) + d,
    decreases d,
{
    if d > 0 {
        lemma_squash_keeps(vals, c, j, (d - 1) as nat);
        assert(covered(vals, c, (vals[j] + d - 1) as nat));
    }
}

proof fn lemma_squash_step(vals: Seq<nat>, c: nat, t: nat)
    requires
        vals.len() > 0,
    ensures
        squash(vals, c, t) <= squash(vals.drop_last(), c, t) + c,
        squash(vals, c, t) <= squash(vals.drop_last(), c, t) + if t >= vals.last() {
            (t - vals.last()) as nat
        } else {
            0nat
        },
    decreases t,
{
    if t > 0 {
        let u = (t - 1) as nat;
        lemma_squash_step(vals, c, u);
        if covered(vals, c, u) && !covered(vals.drop_last(), c, u) {
            let j = choose|j: int| 0 <= j < vals.len() && vals[j] <= u && u < vals[j] + c;
            if j < vals.len() - 1 {
                assert(vals.drop_last()[j] == vals[j]);
            }
        }
        if covered(vals.drop_last(), c, u) {
            let j = choose|j: int| 0 <= j < vals.drop_last().len() && vals.drop_last()[j] <= u && u < vals.drop_last()[j] + c;
            assert(vals[j] == vals.drop_last()[j]);
        }
    }
}

proof fn lemma_squash_bound(vals: Seq<nat>, c: nat, t: nat)
    ensures
        squash(vals, c, t) <= vals.len() * c,
    decreases vals.len(), t,
{
    if vals.len() == 0 {
        if t > 0 {
            lemma_squash_bound(vals, c, (t - 1) as nat);
        }
    } else {
        lemma_squash_step(vals, c, t);
        lemma_squash_bound(vals.drop_last(), c, t);
        assert((vals.len() - 1) * c + c == vals.len() * c) by (nonlinear_arith);
    }
}

/// Any solution of the edges can be squashed into one whose values are at most
/// `vars.len() * c`, where `c` bounds the left offsets.
proof fn lemma_small_solution(
    rho: Map<usize, nat>,
    vars: Seq<usize>,
    edges: Seq<(usize, usize, usize, usize)>,
    c: nat,
)
    requires
        edges_hold(rho, vars, edges),
        forall|i: int| 0 <= i < edges.len() ==> edges[i].1 <= c,
        forall|i: int| 0 <= i < edges.len() ==> edges[i].0 < vars.len() && edges[i].2 < vars.len(),
    ensures
        ({
            let vals = Seq::new(vars.len(), |j: int| node_value(rho, vars, j));
            let small = Map::new(|v: usize| rho.contains_key(v), |v: usize| squash(vals, c, rho[v]));
            edges_hold(small, vars, edges) && bounded(small, vars.len() * c)
        }),
{
    let vals = Seq::new(vars.len(), |j: int| node_value(rho, vars, j));
    let small = Map::new(|v: usize| rho.contains_key(v), |v: usize| squash(vals, c, rho[v]));
    assert forall|j: int| 0 <= j < vars.len() implies node_value(small, vars, j) == squash(
        vals,
        c,
        #[trigger] node_value(rho, vars, j),
    ) by {}
    assert forall|i: int| 0 <= i < edges.len() implies node_value(small, vars, #[trigger] edges[i].0 as int)
        + edges[i].1 <= node_value(small, vars, edges[i].2 as int) + edges[i].3 by {
        let (x, k, y, m) = edges[i];
        let vx = node_value(rho, vars, x as int);
        let vy = node_value(rho, vars, y as int);
        assert(vx + k <= vy + m);
        assert(vals[x as int] == vx);
        if k >= m {
            let d = (k - m) as nat;
            lemma_squash_keeps(vals, c, x as int, d);
            lemma_squash_mono(vals, c, vx + d, vy);
        } else if vx <= vy {
            lemma_squash_mono(vals, c, vx, vy);
        } else {
            lemma_squash_mono(vals, c, vy, vx);
        }
    }
    assert forall|v: usize| #[trigger] small.contains_key(v) implies small[v] <= vars.len() * c by {
        lemma_squash_bound(vals, c, rho[v]);
    }
}

impl ConstraintSet {
    #[verifier::type_invariant]
    spec fn inv(self) -> bool {
        assign_closed(self.assign@)
    }

    pub fn new() -> (r: Self)
        ensures
            r@.fresh == 0,
            r@.assign == Map::<usize, Level>::empty(),
            r@.leq == Seq::<(Level, Level)>::empty(),
    {
        ConstraintSet { fresh: 0, assign: HashMap::new(), leq: Vec::new() }
    }

    /// A variable not handed out before.
    pub fn fresh(&mut self) -> (v: LevelVar)
        requires
            old(self)@.fresh < usize::MAX,
        ensures
            v == LevelVar(old(self)@.fresh),
            final(self)@ == fresh_s(old(self)@),
    {
        proof {
            use_type_invariant(&*self);
        }
        let v = LevelVar(self.fresh);
        self.fresh = self.fresh + 1;
        v
    }

    pub fn equate(&mut self, a: Level, b: Level)
        ensures
            final(self)@ == equate_s(old(self)@, a, b),
    {
        proof {
            use_type_invariant(&*self);
        }
        let a2 = a.copy();
        let b2 = b.copy();
        let mut leq = Vec::new();
        std::mem::swap(&mut leq, &mut self.leq);
        leq.push((a2, b2));
        leq.push((b, a));
        self.leq = leq;
    }

    pub fn subtype(&mut self, sub: Level, sup: Level)
        ensures
            final(self)@ == push_leq(old(self)@, sub, sup),
    {
        proof {
            use_type_invariant(&*self);
        }
        let mut leq = Vec::new();
        std::mem::swap(&mut leq, &mut self.leq);
        leq.push((sub, sup));
        self.leq = leq;
    }

    /// `l` with the assigned variables replaced.
    fn subst_level(&self, l: &Level) -> (r: Level)
        ensures
            r == subst(self@.assign, *l),
        decreases l,
    {
        match l {
            Level::Var(v) => match self.assign.get(&v.0) {
                Some(t) => t.copy(),
                None => Level::Var(*v),
            },
            Level::Zero => Level::Zero,
            Level::Succ(inner) => Level::Succ(Box::new(self.subst_level(&**inner))),
        }
    }

    /// The successors on top of `l`, counted up to `cap`.
    fn succs_up_to(l: &Level, cap: usize) -> (r: usize)
        ensures
            r == (if succs(*l) < cap { succs(*l) } else { cap as nat }),
        decreases l,
    {
        match l {
            Level::Succ(inner) => {
                let k = Self::succs_up_to(&**inner, cap);
                if k < cap {
                    k + 1
                } else {
                    cap
                }
            },
            _ => 0,
        }
    }

    /// Whether the pending constraints are small enough for `solve`: their
    /// successors, once the assigned variables are replaced, are few enough
    /// that the solver's bounds fit in a machine word.
    pub fn within_limits(&self) -> (r: bool)
        ensures
            r == (weight(self@.assign, self@.leq) * (2 * self@.leq.len() + 2) <= usize::MAX / 4
                && self@.leq.len() < usize::MAX / 4),
    {
        let ghost assign = self@.assign;
        let ghost leq = self@.leq;
        let n = self.leq.len();
        if n >= usize::MAX / 4 {
            return false;
        }
        let cap: usize = usize::MAX / 4 + 1;
        let mut w: usize = 0;
        let mut i: usize = 0;
        while i < n
            invariant
                n == leq.len(),
                leq == self@.leq,
                assign == self@.assign,
                cap == usize::MAX / 4 + 1,
                i <= n,
                w == (if weight(assign, leq.subrange(0, i as int)) < cap {
                    weight(assign, leq.subrange(0, i as int))
                } else {
                    cap as nat
                }),
            decreases n - i,
        {
            proof {
                lemma_weight_prefix(assign, leq, i as int);
            }
            let a = self.subst_level(&self.leq[i].0);
            let b = self.subst_level(&self.leq[i].1);
            let ka = Self::succs_up_to(&a, cap);
            let kb = Self::succs_up_to(&b, cap);
            let t = w + ka + kb;
            w = if t < cap {
                t
            } else {
                cap
            };
            i = i + 1;
        }
        proof {
            assert(leq.subrange(0, n as int) =~= leq);
        }
        if w >= cap {
            proof {
                let wt = weight(assign, leq);
                assert(wt <= wt * (2 * n + 2)) by (nonlinear_arith);
            }
            return false;
        }
        match w.checked_mul(2 * n + 2) {
            Some(p) => p <= usize::MAX / 4,
            None => false,
        }
    }

    /// The successors on top of `l` and the variable under them.
    fn parts(l: &Level) -> (r: (usize, Option<usize>))
        requires
            succs(*l) <= usize::MAX,
        ensures
            r.0 == succs(*l),
            r.1 == base(*l),
        decreases l,
    {
        match l {
            Level::Succ(inner) => {
                let (n, b) = Self::parts(&**inner);
                (n + 1, b)
            },
            Level::Var(v) => (0, Some(v.0)),
            Level::Zero => (0, None),
        }
    }

    /// The node standing for base `b`, adding one for a new variable.
    fn node(vars: &mut Vec<usize>, b: Option<usize>) -> (j: usize)
        requires
            old(vars)@.len() >= 1,
            distinct_nodes(old(vars)@),
            old(vars)@.len() < usize::MAX,
        ensures
            final(vars)@ == old(vars)@ || (b is Some && final(vars)@ == old(vars)@.push(b->0)),
            final(vars)@.len() >= 1,
            forall|i: int| 0 <= i < old(vars)@.len() ==> final(vars)@[i] == old(vars)@[i],
            distinct_nodes(final(vars)@),
            node_of(final(vars)@, j, b),
    {
        match b {
            None => 0,
            Some(v) => {
                let n = vars.len();
                let mut i: usize = 1;
                while i < n
                    invariant
                        n == vars@.len(),
                        1 <= i <= n,
                        b == Some(v),
                        distinct_nodes(vars@),
                        forall|t: int| 1 <= t < i ==> vars@[t] != v,
                    decreases n - i,
                {
                    if vars[i] == v {
                        proof {
                            assert(node_of(vars@, i, b));
                        }
                        return i;
                    }
                    i = i + 1;
                }
                vars.push(v);
                n
            },
        }
    }

    /// Solve the accumulated `a <= b` constraints.
    ///
    /// Levels are built from `Zero`, `Succ` and unification variables, and the
    /// constraints are read under the assignment of earlier solves. The solver
    /// computes the least valuation: starting from zero, a variable is raised
    /// only as far as a lower bound forces it, so a variable's upper bounds never
    /// force it up. It reports the constraints inconsistent exactly when no
    /// valuation satisfies them: a bound would push a successor below zero, or
    /// raising never settles (a variable bounded below by its own successor).
    /// On success the least valuation is recorded as the assignment and the
    /// constraints are cleared; on failure nothing changes.
    pub fn solve(&mut self) -> (r: Result<(), LevelError>)
        requires
            weight(old(self)@.assign, old(self)@.leq) * (2 * old(self)@.leq.len() + 2) <= usize::MAX / 4,
            old(self)@.leq.len() < usize::MAX / 4,
        ensures
            r is Ok ==> exists|rho: Map<usize, nat>| {
                &&& satisfies(rho, old(self)@.assign, old(self)@.leq)
                &&& final(self)@.assign == old(self)@.assign.union_prefer_right(numerals(rho))
            },
            r is Ok ==> final(self)@.leq.len() == 0 && final(self)@.fresh == old(self)@.fresh,
            r is Err ==> final(self)@ == old(self)@,
            r is Err ==> !exists|rho: Map<usize, nat>| satisfies(rho, old(self)@.assign, old(self)@.leq),
    {
        proof {
            use_type_invariant(&*self);
        }
        let ghost assign = self@.assign;
        let ghost leq = self@.leq;
        let n = self.leq.len();
        let mut vars: Vec<usize> = Vec::new();
        vars.push(0);
        let mut edges: Vec<(usize, usize, usize, usize)> = Vec::new();
        let mut bound: usize = 0;
        let mut i: usize = 0;
        proof {
            let w = weight(assign, leq);
            assert(w <= w * (2 * n + 2)) by (nonlinear_arith);
        }
        while i < n
            invariant
                n == leq.len(),
                self@ == old(self)@,
                leq == self@.leq,
                assign == self@.assign,
                assign_closed(assign),
                i <= n,
                edges@.len() == i,
                vars@.len() >= 1,
                vars@.len() <= 2 * i + 1,
                distinct_nodes(vars@),
                encodes(assign, leq.subrange(0, i as int), vars@, edges@),
                bound == weight(assign, leq.subrange(0, i as int)),
                weight(assign, leq) * (2 * n + 2) <= usize::MAX / 4,
                weight(assign, leq) <= usize::MAX / 4,
                n < usize::MAX / 4,
            decreases n - i,
        {
            proof {
                lemma_weight(assign, leq, i as int);
                lemma_weight_prefix(assign, leq, i as int);
                lemma_weight_subrange(assign, leq, i as int + 1);
                assert(leq.subrange(0, i as int + 1)[i as int] == leq[i as int]);
            }
            let a = self.subst_level(&self.leq[i].0);
            let b = self.subst_level(&self.leq[i].1);
            let (k, ba) = Self::parts(&a);
            let (m, bb) = Self::parts(&b);
            let ghost vars0 = vars@;
            let x = Self::node(&mut vars, ba);
            let y = Self::node(&mut vars, bb);
            let ghost edges0 = edges@;
            proof {
                assert(a == subst(assign, leq[i as int].0));
                assert(b == subst(assign, leq[i as int].1));
                lemma_encodes_push(assign, leq, i as int, vars0, vars@, edges0, (x, k, y, m));
            }
            edges.push((x, k, y, m));
            bound = bound + k + m;
            i = i + 1;
        }
        proof {
            assert(leq.subrange(0, n as int) =~= leq);
        }
        let ghost w = weight(assign, leq);
        // Raise the lower bounds of the nodes until every edge holds. A solution
        // exists only if one exists below `big` (`lemma_small_solution`).
        let len = vars.len();
        proof {
            assert(len * w <= (2 * n + 1) * w) by (nonlinear_arith)
                requires
                    len <= 2 * n + 1,
            ;
            assert((2 * n + 1) * w + w == w * (2 * n + 2)) by (nonlinear_arith);
        }
        let big = len * bound;
        let mut lb: Vec<usize> = Vec::new();
        let mut j: usize = 0;
        while j < len
            invariant
                len == vars@.len(),
                j <= len,
                lb@.len() == j,
                forall|t: int| 0 <= t < j ==> lb@[t] == 0,
            decreases len - j,
        {
            lb.push(0);
            j = j + 1;
        }
        proof {
            lemma_total_bound(lb@, 0);
        }
        loop
            invariant
                lb@.len() == vars@.len(),
                vars@.len() >= 1,
                distinct_nodes(vars@),
                lb@[0] == 0,
                bound == w,
                w == weight(assign, leq),
                big == vars@.len() * w,
                big + w <= usize::MAX / 4,
                self@ == old(self)@,
                encodes(assign, leq, vars@, edges@),
                edges@.len() == leq.len(),
                assign == self@.assign,
                leq == self@.leq,
                assign_closed(assign),
                forall|t: int| 0 <= t < lb@.len() ==> lb@[t] <= big,
                forall|rho: Map<usize, nat>| #[trigger] edges_hold(rho, vars@, edges@) ==> forall|t: int|
                    0 <= t < lb@.len() ==> lb@[t] <= node_value(rho, vars@, t),
            ensures
                lb@.len() == vars@.len(),
                lb@[0] == 0,
                encodes(assign, leq, vars@, edges@),
                edges@.len() == leq.len(),
                assign == self@.assign,
                leq == self@.leq,
                assign_closed(assign),
                forall|t: int|
                    0 <= t < edges@.len() ==> lb@[edges@[t].0 as int] + edges@[t].1 <= lb@[edges@[t].2 as int]
                        + edges@[t].3,
            decreases vars@.len() * big - total(lb@),
        {
            proof {
                lemma_total_bound(lb@, big as nat);
            }
            let ghost start = total(lb@);
            let mut changed = false;
            let mut e: usize = 0;
            while e < edges.len()
                invariant
                    lb@.len() == vars@.len(),
                    vars@.len() >= 1,
                    distinct_nodes(vars@),
                    lb@[0] == 0,
                    bound == w,
                    w == weight(assign, leq),
                    big == vars@.len() * w,
                    big + w <= usize::MAX / 4,
                    self@ == old(self)@,
                    encodes(assign, leq, vars@, edges@),
                    edges@.len() == leq.len(),
                    assign == self@.assign,
                    leq == self@.leq,
                    assign_closed(assign),
                    e <= edges@.len(),
                    forall|t: int| 0 <= t < lb@.len() ==> lb@[t] <= big,
                    forall|rho: Map<usize, nat>| #[trigger] edges_hold(rho, vars@, edges@) ==> forall|t: int|
                        0 <= t < lb@.len() ==> lb@[t] <= node_value(rho, vars@, t),
                    changed ==> total(lb@) > start,
                    !changed ==> total(lb@) == start,
                    !changed ==> forall|t: int|
                        0 <= t < e ==> lb@[edges@[t].0 as int] + edges@[t].1 <= lb@[edges@[t].2 as int] + edges@[t].3,
                decreases edges@.len() - e,
            {
                let (x, k, y, m) = edges[e];
                proof {
                    lemma_weight(assign, leq, e as int);
                    assert(edges@[e as int].1 == succs(subst(assign, leq[e as int].0)));
                }
                proof {
                    assert(edges@[e as int].3 == succs(subst(assign, leq[e as int].1)));
                    assert(k <= w && m <= w);
                    assert(lb@[x as int] <= big);
                    assert(lb@[y as int] <= big);
                }
                let need = lb[x] + k;
                let have = lb[y] + m;
                if need > have {
                    if y == 0 {
                        proof {
                            assert forall|rho: Map<usize, nat>| satisfies(rho, assign, leq) implies false by {
                                lemma_encoding(rho, assign, leq, vars@, edges@);
                                assert(edges_hold(rho, vars@, edges@));
                                assert(edges@[e as int].0 == x);
                                assert(node_value(rho, vars@, x as int) + k <= node_value(rho, vars@, 0) + m);
                            }
                        }
                        return Err(LevelError::Inconsistent);
                    }
                    let nv = need - m;
                    if nv > big {
                        proof {
                            assert forall|rho: Map<usize, nat>| satisfies(rho, assign, leq) implies false by {
                                lemma_encoding(rho, assign, leq, vars@, edges@);
                                assert forall|t: int| 0 <= t < edges@.len() implies #[trigger] edges@[t].1 <= w
                                    && edges@[t].0 < vars@.len() && edges@[t].2 < vars@.len() by {
                                    lemma_weight(assign, leq, t);
                                    assert(edges@[t].1 == succs(subst(assign, leq[t].0)));
                                }
                                lemma_small_solution(rho, vars@, edges@, w);
                                let vals = Seq::new(vars@.len(), |t: int| node_value(rho, vars@, t));
                                let small = Map::new(|v: usize| rho.contains_key(v), |v: usize| squash(vals, w, rho[v]));
                                assert(edges_hold(small, vars@, edges@));
                                assert(edges@[e as int].0 == x);
                                assert(node_value(small, vars@, x as int) + k <= node_value(small, vars@, y as int) + m);
                                assert(lb@[x as int] <= node_value(small, vars@, x as int));
                                assert(node_value(small, vars@, y as int) <= big) by {
                                    if small.contains_key(vars@[y as int]) {
                                        assert(small[vars@[y as int]] <= vars@.len() * w);
                                    }
                                }
                            }
                        }
                        return Err(LevelError::Inconsistent);
                    }
                    let ghost old_lb = lb@;
                    lb.set(y, nv);
                    proof {
                        lemma_total_update(old_lb, y as int, nv);
                        assert forall|rho: Map<usize, nat>| #[trigger] edges_hold(rho, vars@, edges@) implies forall|t: int|
                            0 <= t < lb@.len() ==> lb@[t] <= node_value(rho, vars@, t) by {
                            assert(edges@[e as int].0 == x);
                            assert(node_value(rho, vars@, x as int) + k <= node_value(rho, vars@, y as int) + m);
                            assert(old_lb[x as int] <= node_value(rho, vars@, x as int));
                        }
                    }
                    changed = true;
                }
                e = e + 1;
            }
            proof {
                lemma_total_bound(lb@, big as nat);
            }
            if !changed {
                break;
            }
        }
        // The least valuation: each variable node at its lower bound.
        let ghost mut rho: Map<usize, nat> = Map::empty();
        let mut solved: HashMap<usize, Level> = HashMap::new();
        std::mem::swap(&mut solved, &mut self.assign);
        let mut j: usize = 1;
        while j < len
            invariant
                len == vars@.len(),
                lb@.len() == len,
                1 <= j <= len,
                distinct_nodes(vars@),
                self@.leq == leq,
                self@.fresh == old(self)@.fresh,
                assign_closed(solved@),
                forall|t: int| 1 <= t < j ==> rho.contains_key(#[trigger] vars@[t]) && rho[vars@[t]] == lb@[t],
                solved@ == assign.union_prefer_right(numerals(rho)),
            decreases len - j,
        {
            let target = lb[j];
            let lvl = numeral(target);
            proof {
                lemma_succ_n(target as nat);
            }
            solved.insert(vars[j], lvl);
            proof {
                let r0 = rho;
                rho = rho.insert(vars@[j as int], target as nat);
                assert(solved@ =~= assign.union_prefer_right(numerals(rho)));
                assert forall|t: int| 1 <= t < j + 1 implies rho.contains_key(vars@[t]) && rho[vars@[t]] == lb@[t] by {
                    if t < j {
                        assert(vars@[t] != vars@[j as int]);
                        assert(r0.contains_key(vars@[t]));
                    }
                }
            }
            j = j + 1;
        }
        proof {
            assert forall|t: int| 0 <= t < vars@.len() implies node_value(rho, vars@, t) == lb@[t] by {
                if t > 0 {
                    assert(rho.contains_key(vars@[t]));
                }
            }
            assert forall|t: int| 0 <= t < edges@.len() implies node_value(rho, vars@, #[trigger] edges@[t].0 as int)
                + edges@[t].1 <= node_value(rho, vars@, edges@[t].2 as int) + edges@[t].3 by {
                assert(edges@[t].1 == succs(subst(assign, leq[t].0)));
            }
            assert(edges_hold(rho, vars@, edges@));
            lemma_encoding(rho, assign, leq, vars@, edges@);
            assert(satisfies(rho, assign, leq));
        }
        self.assign = solved;
        self.leq = Vec::new();
        Ok(())
    }

    /// `l` with the variables that earlier solves assigned replaced by their
    /// values.
    pub fn instantiate(&mut self, l: Level) -> (r: Level)
        ensures
            final(self)@ == old(self)@,
            r == subst(old(self)@.assign, l),
    {
        self.subst_level(&l)
    }
}

/// A successor never lies below zero: a set holding a constraint `Succ(l) <= Zero`
/// has no solution, so `solve` reports it inconsistent.
pub proof fn lemma_succ_below_zero_unsatisfiable(cs: LevelsView, i: int, l: Level)
    requires
        0 <= i < cs.leq.len(),
        cs.leq[i] == (Level::Succ(Box::new(l)), Level::Zero),
    ensures
        !exists|rho: Map<usize, nat>| satisfies(rho, cs.assign, cs.leq),
{
    assert forall|rho: Map<usize, nat>| !satisfies(rho, cs.assign, cs.leq) by {
        assert(level_value(rho, subst(cs.assign, cs.leq[i].1)) == 0);
        assert(level_value(rho, subst(cs.assign, cs.leq[i].0)) >= 1);
    }
}

/// Constraints that bound levels from below by zero, or that relate variables
/// no earlier solve assigned, are met by giving every variable zero: `solve`
/// accepts them.
pub proof fn lemma_zero_solution(cs: LevelsView)
    requires
        forall|i: int|
            0 <= i < cs.leq.len() ==> (#[trigger] cs.leq[i]).0 == Level::Zero || (cs.leq[i].0 is Var && cs.leq[i].1
                is Var && !cs.assign.contains_key(cs.leq[i].0->Var_0.0) && !cs.assign.contains_key(
                cs.leq[i].1->Var_0.0,
            )),
    ensures
        satisfies(Map::empty(), cs.assign, cs.leq),
{
    assert forall|i: int| 0 <= i < cs.leq.len() implies #[trigger] level_value(
        Map::empty(),
        subst(cs.assign, cs.leq[i].0),
    ) <= level_value(Map::empty(), subst(cs.assign, cs.leq[i].1)) by {
        assert(cs.leq[i].0 == Level::Zero || cs.leq[i].0 is Var);
    }
}

} // verus!

use crate::term::{Name, TermId};
use vstd::prelude::*;

verus! {

/// What the signature knows of a constant: a transparent definition or an axiom.
#[derive(Clone, Copy, Debug)]
pub enum Entry {
    Def { ty: TermId, body: TermId },
    Axiom { ty: TermId },
}

/// The entries of `s` whose name has the characters `k`.
pub open spec fn has_key<V>(s: Seq<(Name, V)>, k: Seq<char>) -> bool {
    exists|i: int| 0 <= i < s.len() && #[trigger] s[i].0.0@ == k
}

/// A table from names to values in which no name occurs twice.
pub struct NameMap<V> {
    entries: Vec<(Name, V)>,
}

pub open spec fn names_distinct<V>(s: Seq<(Name, V)>) -> bool {
    forall|i: int, j: int|
        0 <= i < s.len() && 0 <= j < s.len() && i != j ==> #[trigger] s[i].0.0@ != #[trigger] s[j].0.0@
}

/// The map that a list of distinct names denotes.
pub open spec fn table_map<V>(s: Seq<(Name, V)>) -> Map<Seq<char>, V> {
    Map::new(
        |k: Seq<char>| has_key(s, k),
        |k: Seq<char>| s[choose|i: int| 0 <= i < s.len() && #[trigger] s[i].0.0@ == k].1,
    )
}

impl<V> View for NameMap<V> {
    type V = Map<Seq<char>, V>;

    closed spec fn view(&self) -> Map<Seq<char>, V> {
        table_map(self.entries@)
    }
}

impl<V> NameMap<V> {
    #[verifier::type_invariant]
    spec fn inv(self) -> bool {
        names_distinct(self.entries@)
    }

    pub fn new() -> (r: Self)
        ensures
            r@ == Map::<Seq<char>, V>::empty(),
    {
        let r = NameMap { entries: Vec::new() };
        assert(r@ =~= Map::<Seq<char>, V>::empty());
        r
    }

    /// The value stored under `name`.
    pub fn get(&self, name: &Name) -> (r: Option<&V>)
        ensures
            r == (if self@.contains_key(name.0@) {
                Some(&self@[name.0@])
            } else {
                None
            }),
    {
        proof {
            use_type_invariant(self);
        }
        match find_name(&self.entries, name) {
            Some(i) => {
                proof {
                    let s = self.entries@;
                    let k = name.0@;
                    let c = choose|j: int| 0 <= j < s.len() && #[trigger] s[j].0.0@ == k;
                    assert(s[i as int].0.0@ == k);
                    assert(c == i);
                }
                Some(&self.entries[i].1)
            },
            None => None,
        }
    }

    /// Stores `v` under `name`, replacing what was stored there.
    pub fn insert(&mut self, name: Name, v: V)
        ensures
            final(self)@ == old(self)@.insert(name.0@, v),
    {
        proof {
            use_type_invariant(&*self);
        }
        let ghost k = name.0@;
        let ghost old_s = self.entries@;
        let mut entries: Vec<(Name, V)> = Vec::new();
        std::mem::swap(&mut entries, &mut self.entries);
        match find_name(&entries, &name) {
            Some(i) => {
                entries.set(i, (name, v));
                proof {
                    let s = entries@;
                    assert(names_distinct(s));
                    assert forall|kk: Seq<char>| #[trigger] has_key(s, kk) == (kk == k || has_key(old_s, kk)) by {
                        assert(s[i as int].0.0@ == k);
                        assert(old_s[i as int].0.0@ == k);
                        if has_key(old_s, kk) {
                            let j = choose|j: int| 0 <= j < old_s.len() && #[trigger] old_s[j].0.0@ == kk;
                            if j != i {
                                assert(s[j].0.0@ == kk);
                            }
                        }
                        if has_key(s, kk) {
                            let j = choose|j: int| 0 <= j < s.len() && #[trigger] s[j].0.0@ == kk;
                            if j != i {
                                assert(old_s[j].0.0@ == kk);
                            }
                        }
                    }
                    assert forall|kk: Seq<char>| #[trigger] has_key(s, kk) implies table_map(s)[kk] == table_map(old_s).insert(k, v)[kk] by {
                        let j = choose|j: int| 0 <= j < s.len() && #[trigger] s[j].0.0@ == kk;
                        if kk == k {
                            assert(s[i as int].0.0@ == k);
                            assert(j == i);
                        } else {
                            assert(old_s[j].0.0@ == kk);
                            let j2 = choose|j2: int| 0 <= j2 < old_s.len() && #[trigger] old_s[j2].0.0@ == kk;
                            assert(j2 == j);
                        }
                    }
                    assert(table_map(s) =~= table_map(old_s).insert(k, v));
                }
            },
            None => {
                entries.push((name, v));
                proof {
                    let s = entries@;
                    let n = old_s.len() as int;
                    assert(s[n].0.0@ == k);
                    assert(names_distinct(s));
                    assert forall|kk: Seq<char>| #[trigger] has_key(s, kk) == (kk == k || has_key(old_s, kk)) by {
                        if has_key(old_s, kk) {
                            let j = choose|j: int| 0 <= j < old_s.len() && #[trigger] old_s[j].0.0@ == kk;
                            assert(s[j].0.0@ == kk);
                        }
                        if has_key(s, kk) && kk != k {
                            let j = choose|j: int| 0 <= j < s.len() && #[trigger] s[j].0.0@ == kk;
                            assert(old_s[j].0.0@ == kk);
                        }
                    }
                    assert forall|kk: Seq<char>| #[trigger] has_key(s, kk) implies table_map(s)[kk] == table_map(old_s).insert(k, v)[kk] by {
                        let j = choose|j: int| 0 <= j < s.len() && #[trigger] s[j].0.0@ == kk;
                        if kk == k {
                            assert(j == n);
                        } else {
                            assert(old_s[j].0.0@ == kk);
                            let j2 = choose|j2: int| 0 <= j2 < old_s.len() && #[trigger] old_s[j2].0.0@ == kk;
                            assert(j2 == j);
                        }
                    }
                    assert(table_map(s) =~= table_map(old_s).insert(k, v));
                }
            },
        }
        self.entries = entries;
    }
}

/// The position of `name` in `entries`, if it is there.
fn find_name<V>(entries: &Vec<(Name, V)>, name: &Name) -> (r: Option<usize>)
    ensures
        match r {
            Some(i) => i < entries@.len() && entries@[i as int].0.0@ == name.0@,
            None => !has_key(entries@, name.0@),
        },
{
    let n = entries.len();
    let mut i: usize = 0;
    while i < n
        invariant
            n == entries@.len(),
            i <= n,
            forall|j: int| 0 <= j < i ==> entries@[j].0.0@ != name.0@,
        decreases n - i,
    {
        if entries[i].0.0 == name.0 {
            return Some(i);
        }
        i = i + 1;
    }
    None
}

/// The global signature: the constants, each an axiom or a definition.
pub struct Signature {
    entries: NameMap<Entry>,
}

impl View for Signature {
    type V = Map<Seq<char>, Entry>;

    closed spec fn view(&self) -> Map<Seq<char>, Entry> {
        self.entries@
    }
}

impl Signature {
    pub fn new() -> (r: Self)
        ensures
            r@ == Map::<Seq<char>, Entry>::empty(),
    {
        Signature { entries: NameMap::new() }
    }

    /// Records a transparent definition, replacing any entry of the same name.
    pub fn insert_def(&mut self, name: Name, ty: TermId, body: TermId)
        ensures
            final(self)@ == old(self)@.insert(name.0@, Entry::Def { ty, body }),
    {
        self.entries.insert(name, Entry::Def { ty, body });
    }

    /// Records an axiom, replacing any entry of the same name.
    pub fn insert_axiom(&mut self, name: Name, ty: TermId)
        ensures
            final(self)@ == old(self)@.insert(name.0@, Entry::Axiom { ty }),
    {
        self.entries.insert(name, Entry::Axiom { ty });
    }

    pub fn get(&self, name: &Name) -> (r: Option<&Entry>)
        ensures
            r == (if self@.contains_key(name.0@) {
                Some(&self@[name.0@])
            } else {
                None
            }),
    {
        self.entries.get(name)
    }
}

impl Default for Signature {
    fn default() -> (r: Self)
        ensures
            r@ == Map::<Seq<char>, Entry>::empty(),
    {
        Signature::new()
    }
}

/// Recording an entry makes it what the signature gives for that name, and
/// leaves every other name as it was.
pub proof fn lemma_get_after_insert(sig: Map<Seq<char>, Entry>, name: Seq<char>, e: Entry, other: Seq<char>)
    ensures
        sig.insert(name, e).contains_key(name),
        sig.insert(name, e)[name] == e,
        other != name ==> sig.insert(name, e).contains_key(other) == sig.contains_key(other),
        other != name && sig.contains_key(other) ==> sig.insert(name, e)[other] == sig[other],
{
}

} // verus!

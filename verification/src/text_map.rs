//! A map from text, kept in the order of its keys.

use vstd::prelude::*;

use crate::order::{before, increasing, lemma_before_irreflexive, lemma_before_total, lemma_before_transitive, precedes};
use crate::text::same;

verus! {

/// A map from text to `V`, its entries in the order of their keys.
#[derive(Debug, Clone, PartialEq, Eq)]
pub struct TextMap<V> {
    entries: Vec<(String, V)>,
}

/// The entry of `es` under `k`, looked for from `i` on.
pub open spec fn entry_under<V>(es: Seq<(Seq<char>, V)>, k: Seq<char>, i: int) -> Option<V>
    decreases es.len() - i,
{
    if i < 0 || i >= es.len() {
        None
    } else if es[i].0 == k {
        Some(es[i].1)
    } else {
        entry_under(es, k, i + 1)
    }
}

/// The map that a list of entries writes; of two entries under one key the later
/// one counts.
pub open spec fn map_of<V>(es: Seq<(Seq<char>, V)>) -> Map<Seq<char>, V>
    decreases es.len(),
{
    if es.len() == 0 {
        Map::empty()
    } else {
        map_of(es.drop_last()).insert(es.last().0, es.last().1)
    }
}

impl<V> TextMap<V> {
    /// The entries in the order of their keys.
    pub closed spec fn listed(&self) -> Seq<(Seq<char>, V)> {
        self.entries@.map_values(|e: (String, V)| (e.0@, e.1))
    }

    /// The keys in their order.
    pub open spec fn keys(&self) -> Seq<Seq<char>> {
        self.listed().map_values(|e: (Seq<char>, V)| e.0)
    }

    /// The keys stand in order, none twice.
    pub open spec fn wf(&self) -> bool {
        increasing(self.keys())
    }

    /// An empty map.
    pub fn new() -> (m: Self)
        ensures
            m.wf(),
            m@ == Map::<Seq<char>, V>::empty(),
            m.listed() == Seq::<(Seq<char>, V)>::empty(),
    {
        let m = TextMap { entries: Vec::new() };
        assert(m.listed() =~= Seq::<(Seq<char>, V)>::empty());
        m
    }

    /// How many keys the map has.
    pub fn len(&self) -> (n: usize)
        ensures
            n == self.listed().len(),
    {
        self.entries.len()
    }

    /// Has the map no key?
    pub fn is_empty(&self) -> (b: bool)
        ensures
            b == (self.listed().len() == 0),
            b == (self@ == Map::<Seq<char>, V>::empty()),
    {
        proof {
            if self.listed().len() > 0 {
                assert(self@.dom().contains(self.listed().last().0));
            }
        }
        self.entries.len() == 0
    }

    /// The key of entry `i`.
    pub fn key_at(&self, i: usize) -> (k: &String)
        requires
            i < self.listed().len(),
        ensures
            k@ == self.listed()[i as int].0,
    {
        &self.entries[i].0
    }

    /// The value of entry `i`.
    pub fn value_at(&self, i: usize) -> (v: &V)
        requires
            i < self.listed().len(),
        ensures
            *v == self.listed()[i as int].1,
    {
        &self.entries[i].1
    }

    /// The value under `k`.
    pub fn get(&self, k: &str) -> (r: Option<&V>)
        requires
            self.wf(),
        ensures
            r is Some <==> self@.contains_key(k@),
            r matches Some(v) ==> *v == self@[k@],
    {
        let mut i: usize = 0;
        while i < self.entries.len()
            invariant
                i <= self.entries.len(),
                self.wf(),
                forall|j: int| 0 <= j < i ==> #[trigger] self.listed()[j].0 != k@,
            decreases self.entries.len() - i,
        {
            if same(self.entries[i].0.as_str(), k) {
                proof {
                    lemma_listed(self.listed(), i as int);
                }
                return Some(&self.entries[i].1);
            }
            i = i + 1;
        }
        proof {
            lemma_unlisted(self.listed(), k@);
        }
        None
    }

    /// Put `v` under `k`.
    pub fn insert(&mut self, k: String, v: V)
        requires
            old(self).wf(),
        ensures
            final(self).wf(),
            final(self)@ == old(self)@.insert(k@, v),
    {
        let ghost es = self.listed();
        let mut i: usize = 0;
        while i < self.entries.len() && precedes(self.entries[i].0.as_str(), k.as_str())
            invariant
                i <= self.entries.len(),
                self.wf(),
                es == self.listed(),
                forall|j: int| 0 <= j < i ==> before(#[trigger] es[j].0, k@),
            decreases self.entries.len() - i,
        {
            i = i + 1;
        }
        if i < self.entries.len() && same(self.entries[i].0.as_str(), k.as_str()) {
            let ghost key = k@;
            self.entries[i] = (k, v);
            proof {
                let fs = self.listed();
                assert(fs =~= es.update(i as int, (key, v)));
                lemma_update(es, i as int, v);
                assert(self.keys() =~= es.map_values(|e: (Seq<char>, V)| e.0));
            }
        } else {
            let ghost key = k@;
            self.entries.insert(i, (k, v));
            proof {
                let fs = self.listed();
                assert(fs =~= es.insert(i as int, (key, v)));
                let ks = fs.map_values(|e: (Seq<char>, V)| e.0);
                let os = es.map_values(|e: (Seq<char>, V)| e.0);
                assert forall|a: int, b: int| 0 <= a < b < ks.len() implies before(ks[a], ks[b]) by {
                    let x = if a < i { a } else { a - 1 };
                    let y = if b < i { b } else { b - 1 };
                    if a != i {
                        assert(ks[a] == os[x]);
                    }
                    if b != i {
                        assert(ks[b] == os[y]);
                    }
                    if a == i {
                        lemma_before_total(os[i as int], key);
                        assert(before(key, os[i as int]));
                        if y > i {
                            lemma_before_transitive(key, os[i as int], os[y]);
                        }
                    } else if b == i {
                        assert(before(es[a].0, key));
                    }
                }
                assert forall|j: int| 0 <= j < es.len() implies #[trigger] es[j].0 != key by {
                    if j < i {
                        lemma_before_irreflexive(key);
                    } else {
                        lemma_before_total(os[i as int], key);
                        if j > i {
                            lemma_before_transitive(key, os[i as int], os[j]);
                        }
                        lemma_before_irreflexive(key);
                        assert(os[j] == es[j].0);
                    }
                }
                lemma_insert(es, i as int, key, v);
            }
        }
    }
}

impl<V> View for TextMap<V> {
    type V = Map<Seq<char>, V>;

    open spec fn view(&self) -> Map<Seq<char>, V> {
        map_of(self.listed())
    }
}

/// The keys of the entries are distinct.
pub open spec fn distinct<V>(es: Seq<(Seq<char>, V)>) -> bool {
    increasing(es.map_values(|e: (Seq<char>, V)| e.0))
}

proof fn lemma_distinct<V>(es: Seq<(Seq<char>, V)>, i: int, j: int)
    requires
        distinct(es),
        0 <= i < j < es.len(),
    ensures
        es[i].0 != es[j].0,
{
    let ks = es.map_values(|e: (Seq<char>, V)| e.0);
    assert(before(ks[i], ks[j]));
    lemma_before_irreflexive(ks[i]);
}

proof fn lemma_distinct_prefix<V>(es: Seq<(Seq<char>, V)>)
    requires
        distinct(es),
        es.len() > 0,
    ensures
        distinct(es.drop_last()),
{
    let ks = es.map_values(|e: (Seq<char>, V)| e.0);
    let ps = es.drop_last().map_values(|e: (Seq<char>, V)| e.0);
    assert forall|a: int, b: int| 0 <= a < b < ps.len() implies before(ps[a], ps[b]) by {
        assert(ps[a] == ks[a] && ps[b] == ks[b]);
    }
}

/// A listed entry is what the map holds under its key.
pub proof fn lemma_listed<V>(es: Seq<(Seq<char>, V)>, i: int)
    requires
        distinct(es),
        0 <= i < es.len(),
    ensures
        map_of(es).contains_key(es[i].0),
        map_of(es)[es[i].0] == es[i].1,
    decreases es.len(),
{
    if i < es.len() - 1 {
        lemma_distinct_prefix(es);
        lemma_listed(es.drop_last(), i);
        lemma_distinct(es, i, es.len() - 1);
    }
}

/// The map holds nothing under a key that is not listed.
pub proof fn lemma_unlisted<V>(es: Seq<(Seq<char>, V)>, k: Seq<char>)
    requires
        forall|j: int| 0 <= j < es.len() ==> #[trigger] es[j].0 != k,
    ensures
        !map_of(es).contains_key(k),
    decreases es.len(),
{
    if es.len() > 0 {
        assert(es.last().0 != k);
        assert forall|j: int| 0 <= j < es.len() - 1 implies #[trigger] es.drop_last()[j].0 != k by {
            assert(es[j].0 != k);
        }
        lemma_unlisted(es.drop_last(), k);
    }
}

proof fn lemma_update<V>(es: Seq<(Seq<char>, V)>, i: int, v: V)
    requires
        distinct(es),
        0 <= i < es.len(),
    ensures
        map_of(es.update(i, (es[i].0, v))) == map_of(es).insert(es[i].0, v),
    decreases es.len(),
{
    let fs = es.update(i, (es[i].0, v));
    if i == es.len() - 1 {
        assert(fs.drop_last() =~= es.drop_last());
        assert(map_of(fs) =~= map_of(es).insert(es[i].0, v));
    } else {
        lemma_distinct_prefix(es);
        lemma_update(es.drop_last(), i, v);
        assert(fs.drop_last() =~= es.drop_last().update(i, (es[i].0, v)));
        lemma_distinct(es, i, es.len() - 1);
        assert(map_of(fs) =~= map_of(es).insert(es[i].0, v));
    }
}

proof fn lemma_insert<V>(es: Seq<(Seq<char>, V)>, i: int, k: Seq<char>, v: V)
    requires
        0 <= i <= es.len(),
        forall|j: int| 0 <= j < es.len() ==> #[trigger] es[j].0 != k,
    ensures
        map_of(es.insert(i, (k, v))) == map_of(es).insert(k, v),
    decreases es.len(),
{
    let fs = es.insert(i, (k, v));
    if i == es.len() {
        assert(fs.drop_last() =~= es);
    } else {
        assert forall|j: int| 0 <= j < es.len() - 1 implies #[trigger] es.drop_last()[j].0 != k by {
            assert(es[j].0 != k);
        }
        lemma_insert(es.drop_last(), i, k, v);
        assert(fs.drop_last() =~= es.drop_last().insert(i, (k, v)));
        assert(fs.last() == es.last());
        assert(es[es.len() - 1].0 != k);
        assert(map_of(fs) =~= map_of(es).insert(k, v));
    }
}

/// What is looked up under a key is the first entry of that key, and the map that entries write
/// has the last.
pub proof fn law_what_stands_under_a_key<V>(es: Seq<(Seq<char>, V)>, k: Seq<char>, v: V, i: int)
    requires
        0 <= i <= es.len(),
    ensures
        entry_under(es, k, i) is None <==> (forall|j: int| i <= j < es.len() ==> (#[trigger] es[j]).0 != k),
        map_of(es.push((k, v))) == map_of(es).insert(k, v),
        map_of(Seq::<(Seq<char>, V)>::empty()) == Map::<Seq<char>, V>::empty(),
    decreases es.len() - i,
{
    assert(es.push((k, v)).drop_last() =~= es);
    if i < es.len() {
        law_what_stands_under_a_key(es, k, v, i + 1);
    }
}

} // verus!

//! The order of texts, and stable sorting as a permutation of indices.

use vstd::prelude::*;

use crate::text::{chars_of, strs};

verus! {

/// `a` comes strictly before `b`: the first character that differs decides, and
/// a proper prefix comes first.
pub open spec fn before(a: Seq<char>, b: Seq<char>) -> bool
    decreases a.len(),
{
    if b.len() == 0 {
        false
    } else if a.len() == 0 {
        true
    } else if a[0] != b[0] {
        a[0] < b[0]
    } else {
        before(a.skip(1), b.skip(1))
    }
}

/// No text comes before itself.
pub proof fn lemma_before_irreflexive(a: Seq<char>)
    ensures
        !before(a, a),
    decreases a.len(),
{
    if a.len() > 0 {
        lemma_before_irreflexive(a.skip(1));
    }
}

pub proof fn lemma_before_transitive(a: Seq<char>, b: Seq<char>, c: Seq<char>)
    requires
        before(a, b),
        before(b, c),
    ensures
        before(a, c),
    decreases a.len(),
{
    if a.len() > 0 && a[0] == b[0] && b[0] == c[0] {
        lemma_before_transitive(a.skip(1), b.skip(1), c.skip(1));
    }
}

/// Of two different texts one comes before the other.
pub proof fn lemma_before_total(a: Seq<char>, b: Seq<char>)
    ensures
        before(a, b) || before(b, a) || a == b,
    decreases a.len(),
{
    if a.len() > 0 && b.len() > 0 && a[0] == b[0] {
        lemma_before_total(a.skip(1), b.skip(1));
        if a.skip(1) == b.skip(1) {
            assert forall|i: int| 0 <= i < a.len() implies a[i] == b[i] by {
                if i > 0 {
                    assert(a.skip(1)[i - 1] == b.skip(1)[i - 1]);
                }
            }
            assert(a.skip(1).len() == b.skip(1).len());
            assert(a =~= b);
        }
    } else if a.len() == 0 && b.len() == 0 {
        assert(a =~= b);
    }
}

proof fn lemma_before_at(a: Seq<char>, b: Seq<char>, i: int)
    requires
        0 <= i <= a.len(),
        i <= b.len(),
        forall|k: int| 0 <= k < i ==> a[k] == b[k],
        i == a.len() || i == b.len() || a[i] != b[i],
    ensures
        before(a, b) == (i < b.len() && (i == a.len() || a[i] < b[i])),
    decreases i,
{
    if i > 0 {
        let x = a.skip(1);
        let y = b.skip(1);
        assert forall|k: int| 0 <= k < i - 1 implies x[k] == y[k] by {
            assert(x[k] == a[k + 1] && y[k] == b[k + 1]);
        }
        lemma_before_at(x, y, i - 1);
        assert(a[0] == b[0]);
    }
}

/// Does `a` come strictly before `b`?
pub fn precedes(a: &str, b: &str) -> (r: bool)
    ensures
        r == before(a@, b@),
{
    let x = chars_of(a);
    let y = chars_of(b);
    let mut i: usize = 0;
    while i < x.len() && i < y.len() && x[i] == y[i]
        invariant
            i <= x.len(),
            i <= y.len(),
            forall|k: int| 0 <= k < i ==> x[k] == y[k],
        decreases x.len() - i,
    {
        i = i + 1;
    }
    proof {
        lemma_before_at(a@, b@, i as int);
    }
    i < y.len() && (i == x.len() || x[i] < y[i])
}

/// `p` lists `0..n`, each once.
pub open spec fn permutes(p: Seq<usize>, n: int) -> bool {
    &&& p.len() == n
    &&& forall|a: int| 0 <= a < p.len() ==> #[trigger] p[a] < n
    &&& forall|a: int, b: int| 0 <= a < b < p.len() ==> p[a] != p[b]
}

/// `p` lists the indices of `keys` from the least key up; equal keys keep their
/// order.
pub open spec fn ranks(p: Seq<usize>, keys: Seq<u64>) -> bool {
    &&& permutes(p, keys.len() as int)
    &&& forall|a: int, b: int|
        0 <= a < b < p.len() ==> keys[p[a] as int] < keys[p[b] as int] || (keys[p[a] as int]
            == keys[p[b] as int] && p[a] < p[b])
}

/// `p` lists the indices of `keys` from the first text on; equal texts keep their
/// order.
pub open spec fn ranks_texts(p: Seq<usize>, keys: Seq<Seq<char>>) -> bool {
    &&& permutes(p, keys.len() as int)
    &&& forall|a: int, b: int|
        0 <= a < b < p.len() ==> before(keys[p[a] as int], keys[p[b] as int]) || (
        keys[p[a] as int] == keys[p[b] as int] && p[a] < p[b])
}

/// The indices of `keys` from the least key up; equal keys keep their order.
pub fn stable_order(keys: &Vec<u64>) -> (p: Vec<usize>)
    ensures
        ranks(p@, keys@),
{
    let mut p: Vec<usize> = Vec::new();
    let mut i: usize = 0;
    while i < keys.len()
        invariant
            i <= keys.len(),
            p.len() == i,
            forall|a: int| 0 <= a < p.len() ==> #[trigger] p[a] < i,
            forall|a: int, b: int| 0 <= a < b < p.len() ==> p[a] != p[b],
            forall|a: int, b: int|
                0 <= a < b < p.len() ==> keys[p[a] as int] < keys[p[b] as int] || (
                keys[p[a] as int] == keys[p[b] as int] && p[a] < p[b]),
        decreases keys.len() - i,
    {
        let mut at: usize = p.len();
        while at > 0 && keys[p[at - 1]] > keys[i]
            invariant
                at <= p.len(),
                i < keys.len(),
                p.len() == i,
                forall|a: int| 0 <= a < p.len() ==> #[trigger] p[a] < i,
                forall|a: int| at <= a < p.len() ==> keys[#[trigger] p[a] as int] > keys[i as int],
            decreases at,
        {
            at = at - 1;
        }
        let ghost q = p@;
        assert forall|a: int| 0 <= a < at implies keys[#[trigger] q[a] as int] <= keys[i as int] by {
            if a < at - 1 {
                let last = q[at - 1];
            }
        }
        p.insert(at, i);
        assert forall|a: int| 0 <= a < p.len() implies #[trigger] p[a] < i + 1 by {
            if a < at {
                assert(p[a] == q[a]);
            } else if a > at {
                assert(p[a] == q[a - 1]);
            }
        }
        assert forall|a: int, b: int| 0 <= a < b < p.len() implies p[a] != p[b] && (
        keys[p[a] as int] < keys[p[b] as int] || (keys[p[a] as int] == keys[p[b] as int] && p[a]
            < p[b])) by {
            let x = if a < at {
                a
            } else {
                a - 1
            };
            let y = if b < at {
                b
            } else {
                b - 1
            };
            if a != at {
                assert(p[a] == q[x]);
            }
            if b != at {
                assert(p[b] == q[y]);
            }
        }
        i = i + 1;
    }
    p
}

/// The indices of `keys` from the first text on; equal texts keep their order.
pub fn stable_order_texts(keys: &Vec<String>) -> (p: Vec<usize>)
    ensures
        ranks_texts(p@, strs(keys@)),
{
    let mut p: Vec<usize> = Vec::new();
    let ghost ks = strs(keys@);
    let mut i: usize = 0;
    while i < keys.len()
        invariant
            i <= keys.len(),
            ks == strs(keys@),
            p.len() == i,
            forall|a: int| 0 <= a < p.len() ==> #[trigger] p[a] < i,
            forall|a: int, b: int| 0 <= a < b < p.len() ==> p[a] != p[b],
            forall|a: int, b: int|
                0 <= a < b < p.len() ==> before(ks[p[a] as int], ks[p[b] as int]) || (
                ks[p[a] as int] == ks[p[b] as int] && p[a] < p[b]),
        decreases keys.len() - i,
    {
        let mut at: usize = p.len();
        while at > 0 && precedes(keys[i].as_str(), keys[p[at - 1]].as_str())
            invariant
                at <= p.len(),
                i < keys.len(),
                ks == strs(keys@),
                p.len() == i,
                forall|a: int| 0 <= a < p.len() ==> #[trigger] p[a] < i,
                forall|a: int|
                    at <= a < p.len() ==> before(ks[i as int], ks[#[trigger] p[a] as int]),
            decreases at,
        {
            at = at - 1;
        }
        let ghost q = p@;
        assert forall|a: int| 0 <= a < at implies before(ks[#[trigger] q[a] as int], ks[i as int])
            || ks[q[a] as int] == ks[i as int] by {
            let last = q[at - 1];
            lemma_before_total(ks[last as int], ks[i as int]);
            if a < at - 1 {
                if before(ks[q[a] as int], ks[last as int]) && before(
                    ks[last as int],
                    ks[i as int],
                ) {
                    lemma_before_transitive(ks[q[a] as int], ks[last as int], ks[i as int]);
                }
            }
        }
        p.insert(at, i);
        assert forall|a: int| 0 <= a < p.len() implies #[trigger] p[a] < i + 1 by {
            if a < at {
                assert(p[a] == q[a]);
            } else if a > at {
                assert(p[a] == q[a - 1]);
            }
        }
        assert forall|a: int, b: int| 0 <= a < b < p.len() implies p[a] != p[b] && (before(
            ks[p[a] as int],
            ks[p[b] as int],
        ) || (ks[p[a] as int] == ks[p[b] as int] && p[a] < p[b])) by {
            let x = if a < at {
                a
            } else {
                a - 1
            };
            let y = if b < at {
                b
            } else {
                b - 1
            };
            if a != at {
                assert(p[a] == q[x]);
            }
            if b != at {
                assert(p[b] == q[y]);
            }
        }
        i = i + 1;
    }
    p
}

/// Each text comes strictly before the next.
pub open spec fn increasing(s: Seq<Seq<char>>) -> bool {
    forall|a: int, b: int| 0 <= a < b < s.len() ==> before(s[a], s[b])
}

/// `out` holds exactly the texts of `of`, in order and each once.
pub open spec fn sorted_set_of(out: Seq<Seq<char>>, of: Seq<Seq<char>>) -> bool {
    &&& increasing(out)
    &&& forall|t: Seq<char>| out.contains(t) <==> of.contains(t)
}

/// A list is in order and has each text once in one way only.
pub proof fn lemma_sorted_set_is_one(a: Seq<Seq<char>>, b: Seq<Seq<char>>)
    requires
        increasing(a),
        increasing(b),
        forall|t: Seq<char>| a.contains(t) <==> b.contains(t),
    ensures
        a == b,
    decreases a.len(),
{
    if a.len() == 0 {
        if b.len() > 0 {
            assert(b.contains(b[0]));
        }
        assert(a =~= b);
    } else {
        assert(a.contains(a[0]));
        let (x, y) = (a.last(), b.last());
        assert(a.contains(x));
        let k = choose|k: int| 0 <= k < b.len() && b[k] == x;
        assert(b.contains(y));
        let m = choose|m: int| 0 <= m < a.len() && a[m] == y;
        if x != y {
            assert(before(b[k], b[b.len() - 1]));
            assert(before(a[m], a[a.len() - 1]));
            lemma_before_transitive(x, y, x);
            lemma_before_irreflexive(x);
        }
        let (p, q) = (a.drop_last(), b.drop_last());
        assert forall|t: Seq<char>| p.contains(t) implies q.contains(t) by {
            let i = choose|i: int| 0 <= i < p.len() && p[i] == t;
            assert(a[i] == t);
            assert(before(a[i], a[a.len() - 1]));
            lemma_before_irreflexive(x);
            assert(a.contains(t));
            let j = choose|j: int| 0 <= j < b.len() && b[j] == t;
            assert(q[j] == t);
        }
        assert forall|t: Seq<char>| q.contains(t) implies p.contains(t) by {
            let i = choose|i: int| 0 <= i < q.len() && q[i] == t;
            assert(b[i] == t);
            assert(before(b[i], b[b.len() - 1]));
            lemma_before_irreflexive(y);
            assert(b.contains(t));
            let j = choose|j: int| 0 <= j < a.len() && a[j] == t;
            assert(p[j] == t);
        }
        lemma_sorted_set_is_one(p, q);
        assert(a =~= p.push(x));
        assert(b =~= q.push(y));
    }
}

/// The texts of `of`, in order and each once.
pub fn sorted_set(of: &Vec<String>) -> (out: Vec<String>)
    ensures
        sorted_set_of(strs(out@), strs(of@)),
{
    let p = stable_order_texts(of);
    let ghost ks = strs(of@);
    let mut out: Vec<String> = Vec::new();
    let mut i: usize = 0;
    while i < p.len()
        invariant
            i <= p.len(),
            ks == strs(of@),
            ranks_texts(p@, ks),
            increasing(strs(out@)),
            forall|a: int| 0 <= a < out.len() ==> ks.contains(#[trigger] out[a]@),
            forall|a: int| 0 <= a < i ==> strs(out@).contains(ks[#[trigger] p[a] as int]),
            i == 0 ==> out.len() == 0,
            i > 0 ==> out.len() > 0 && out[out.len() - 1]@ == ks[p[i - 1] as int],
        decreases p.len() - i,
    {
        let k: usize = p[i];
        let ghost o = out@;
        let fresh = if out.len() == 0 {
            true
        } else {
            precedes(out[out.len() - 1].as_str(), of[k].as_str())
        };
        assert(ks[k as int] == of[k as int]@);
        if fresh {
            let t = of[k].clone();
            out.push(t);
            assert(strs(out@) =~= strs(o).push(t@));
            assert forall|a: int, b: int| 0 <= a < b < out.len() implies before(
                strs(out@)[a],
                strs(out@)[b],
            ) by {
                if b == o.len() && a < o.len() - 1 {
                    lemma_before_transitive(strs(o)[a], strs(o)[o.len() - 1], t@);
                }
            }
            assert forall|a: int| 0 <= a < i + 1 implies strs(out@).contains(
                ks[#[trigger] p[a] as int],
            ) by {
                if a < i {
                    let w = choose|w: int| 0 <= w < o.len() && strs(o)[w] == ks[p[a] as int];
                    assert(strs(out@)[w] == ks[p[a] as int]);
                } else {
                    assert(strs(out@)[o.len() as int] == ks[k as int]);
                }
            }
        } else {
            assert(ks[p[i - 1] as int] == ks[k as int]);
            assert(strs(out@)[out.len() - 1] == ks[k as int]);
        }
        i = i + 1;
    }
    proof {
        assert forall|t: Seq<char>| strs(out@).contains(t) <==> ks.contains(t) by {
            if strs(out@).contains(t) {
                let w = choose|w: int| 0 <= w < out.len() && strs(out@)[w] == t;
                assert(out[w]@ == t);
            }
            if ks.contains(t) {
                let w = choose|w: int| 0 <= w < ks.len() && ks[w] == t;
                lemma_permutation_hits(p@, ks.len() as int, w);
                let a = choose|a: int| 0 <= a < p.len() && p[a] == w;
                assert(ks[p[a] as int] == t);
            }
        }
    }
    out
}

/// A permutation lists every index.
pub proof fn lemma_permutation_hits(p: Seq<usize>, n: int, w: int)
    requires
        permutes(p, n),
        0 <= w < n,
    ensures
        exists|a: int| 0 <= a < p.len() && p[a] == w,
{
    let s: Seq<int> = p.map_values(|x: usize| x as int);
    assert(s.no_duplicates());
    s.unique_seq_to_set();
    let full = vstd::set_lib::set_int_range(0, n);
    vstd::set_lib::lemma_int_range(0, n);
    assert(s.to_set().subset_of(full)) by {
        assert forall|x: int| s.to_set().contains(x) implies full.contains(x) by {
            let a = choose|a: int| 0 <= a < s.len() && s[a] == x;
            assert(p[a] < n);
        }
    }
    vstd::set_lib::lemma_subset_equality(s.to_set(), full);
    assert(full.contains(w));
    let a = choose|a: int| 0 <= a < s.len() && s[a] == w;
    assert(p[a] == w);
}

/// What was put in order is in order: no key before a smaller one, and equal keys as they came.
pub proof fn law_the_order_is_stable(p: Seq<usize>, keys: Seq<u64>, a: int, b: int)
    requires
        ranks(p, keys),
        0 <= a < b < p.len(),
    ensures
        p.len() == keys.len(),
        p[a] < keys.len(),
        p[a] != p[b],
        keys[p[a] as int] <= keys[p[b] as int],
        keys[p[a] as int] == keys[p[b] as int] ==> p[a] < p[b],
{
}

/// Texts that were put in order are in order, and equal ones stand as they came.
pub proof fn law_the_order_of_texts_is_stable(p: Seq<usize>, keys: Seq<Seq<char>>, a: int, b: int)
    requires
        ranks_texts(p, keys),
        0 <= a < b < p.len(),
    ensures
        p.len() == keys.len(),
        p[a] < keys.len(),
        p[a] != p[b],
        !before(keys[p[b] as int], keys[p[a] as int]),
        keys[p[a] as int] == keys[p[b] as int] ==> p[a] < p[b],
{
    lemma_before_irreflexive(keys[p[a] as int]);
    if before(keys[p[b] as int], keys[p[a] as int]) && before(keys[p[a] as int], keys[p[b] as int]) {
        lemma_before_transitive(keys[p[a] as int], keys[p[b] as int], keys[p[a] as int]);
    }
}

/// A text comes before another where it is its beginning, or has the smaller character where
/// they first differ.
pub proof fn law_what_comes_before(a: Seq<char>, b: Seq<char>, i: int)
    requires
        0 <= i <= a.len(),
        i < b.len(),
        a.take(i) == b.take(i),
    ensures
        i == a.len() ==> before(a, b),
        i < a.len() && a[i] != b[i] ==> (before(a, b) <==> a[i] < b[i]),
    decreases i,
{
    if i > 0 {
        assert(a[0] == a.take(i)[0] && b[0] == b.take(i)[0]);
        assert(a.skip(1).take(i - 1) =~= a.take(i).skip(1));
        assert(b.skip(1).take(i - 1) =~= b.take(i).skip(1));
        law_what_comes_before(a.skip(1), b.skip(1), i - 1);
    }
}

} // verus!

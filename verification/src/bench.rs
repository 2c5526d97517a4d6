//! The reading half of the benchmarks: what a result means, with one set of
//! definitions.

use vstd::prelude::*;
use vstd::string::*;

use crate::json::{Json, Tree, json_in, json_in_bytes, parse, parse_bytes, trees};
use crate::number::{dec, dec_of, number_of, parse_u64};
use crate::order::{before, lemma_before_irreflexive, lemma_before_transitive, permutes, ranks, ranks_texts, sorted_set, sorted_set_of, stable_order, stable_order_texts};
use crate::text::{chars_of, contains, copy_texts, debug, debug_of, digit, find_chars, find_from, holds, join, join_of, lemma_assoc, lemma_holds_end, lemma_holds_itself, lemma_holds_longer, lines, lines_of, pad_end, pad_end_of, pad_start, pad_start_of, slice_text, split_once, split_once_of, starts_with, strs, trim, trim_of, words, words_of};
use crate::text_map::TextMap;

verus! {

// ----------------------------------------------------------------- summary --

/// Counts by name.
pub open spec fn counts_of(v: Seq<(String, u64)>) -> Seq<(Seq<char>, u64)> {
    v.map_values(|p: (String, u64)| (p.0@, p.1))
}

/// Every value of an object's entries is a count.
pub open spec fn all_counts(es: Seq<(Seq<char>, Tree)>) -> bool {
    forall|i: int| 0 <= i < es.len() ==> (#[trigger] es[i]).1 is Unsigned
}

/// The counts that a document holds; none at all where it is no object of counts.
pub open spec fn counts_in(t: Option<Tree>) -> Seq<(Seq<char>, u64)> {
    match t {
        Some(Tree::Object(es)) => if all_counts(es) {
            es.map_values(|e: (Seq<char>, Tree)| (e.0, e.1->Unsigned_0))
        } else {
            Seq::empty()
        },
        _ => Seq::empty(),
    }
}

/// The tree of an entry that may be missing.
pub open spec fn maybe_tree(j: Option<&Json>) -> Option<Tree> {
    match j {
        Some(x) => Some(x@),
        None => None,
    }
}

/// The counts that a document holds.
pub fn counts(j: Option<&Json>) -> (out: Vec<(String, u64)>)
    ensures
        counts_of(out@) == counts_in(maybe_tree(j)),
{
    let mut out: Vec<(String, u64)> = Vec::new();
    assert(counts_of(out@) =~= Seq::<(Seq<char>, u64)>::empty());
    match j {
        Some(Json::Object(es)) => {
            let ghost ts = j->Some_0@->Object_0;
            let ghost want = ts.map_values(|e: (Seq<char>, Tree)| (e.0, e.1->Unsigned_0));
            assert(counts_of(out@) =~= want.take(0));
            let mut i: usize = 0;
            while i < es.len()
                invariant
                    i <= es.len(),
                    ts.len() == es.len(),
                    j == Some(&Json::Object(*es)),
                    j->Some_0@ == Tree::Object(ts),
                    forall|k: int| 0 <= k < es.len() ==> ts[k] == (es[k].0@, es[k].1@),
                    want == ts.map_values(|e: (Seq<char>, Tree)| (e.0, e.1->Unsigned_0)),
                    forall|k: int| 0 <= k < i ==> (#[trigger] ts[k]).1 is Unsigned,
                    counts_of(out@) == want.take(i as int),
                decreases es.len() - i,
            {
                match &es[i].1 {
                    Json::Unsigned(n) => {
                        let ghost o = out@;
                        out.push((es[i].0.clone(), *n));
                        assert(counts_of(out@) =~= counts_of(o).push((es[i as int].0@, *n)));
                        assert(want[i as int] == (es[i as int].0@, *n));
                        assert(want.take(i + 1) =~= want.take(i as int).push(want[i as int]));
                    },
                    _ => {
                        assert(ts[i as int].1 == es[i as int].1@);
                        assert(!(ts[i as int].1 is Unsigned));
                        let none: Vec<(String, u64)> = Vec::new();
                        assert(counts_of(none@) =~= Seq::<(Seq<char>, u64)>::empty());
                        return none;
                    },
                }
                i = i + 1;
            }
            assert(want.take(i as int) =~= want);
            out
        },
        _ => out,
    }
}

/// The statuses and the errors that a result counts; `None` where it is no JSON.
pub fn distributions(text: &str) -> (r: Option<(Vec<(String, u64)>, Vec<(String, u64)>)>)
    ensures
        r is Some <==> json_in(text@) is Some,
        r matches Some(d) ==> counts_of(d.0@) == counts_in(
            json_in(text@)->0.field("statusCodeDistribution"@),
        ) && counts_of(d.1@) == counts_in(json_in(text@)->0.field("errorDistribution"@)),
{
    match parse(text) {
        None => None,
        Some(d) => Some(
            (counts(d.field("statusCodeDistribution")), counts(d.field("errorDistribution"))),
        ),
    }
}

/// The sum of the counts whose names pass a test.
pub open spec fn sum_where(cs: Seq<(Seq<char>, u64)>, keep: spec_fn(Seq<char>) -> bool) -> nat
    decreases cs.len(),
{
    if cs.len() == 0 {
        0
    } else {
        sum_where(cs.drop_last(), keep) + if keep(cs.last().0) {
            cs.last().1 as nat
        } else {
            0nat
        }
    }
}

/// Any name.
pub open spec fn any_name() -> spec_fn(Seq<char>) -> bool {
    |k: Seq<char>| true
}

/// A status of success.
pub open spec fn is_2xx() -> spec_fn(Seq<char>) -> bool {
    |k: Seq<char>| "2"@.is_prefix_of(k)
}

/// Any other status.
pub open spec fn not_2xx() -> spec_fn(Seq<char>) -> bool {
    |k: Seq<char>| !"2"@.is_prefix_of(k)
}

/// A request that was still in flight when the clock stopped.
pub open spec fn in_flight() -> spec_fn(Seq<char>) -> bool {
    |k: Seq<char>| holds(k, "deadline"@)
}

proof fn lemma_sums(cs: Seq<(Seq<char>, u64)>, keep: spec_fn(Seq<char>) -> bool)
    ensures
        sum_where(cs, keep) <= sum_where(cs, any_name()),
    decreases cs.len(),
{
    if cs.len() > 0 {
        lemma_sums(cs.drop_last(), keep);
    }
}

proof fn lemma_sums_grow(cs: Seq<(Seq<char>, u64)>, i: int)
    requires
        0 <= i <= cs.len(),
    ensures
        sum_where(cs.take(i), any_name()) <= sum_where(cs, any_name()),
    decreases cs.len(),
{
    if i < cs.len() {
        lemma_sums_grow(cs.drop_last(), i);
        assert(cs.drop_last().take(i) =~= cs.take(i));
    } else {
        assert(cs.take(i) =~= cs);
    }
}

/// How a run ended: answered with success, answered otherwise, failed, and cut off by
/// the clock. The generator counts the last as errors, one for each connection, so they
/// are no failures.
#[derive(Debug, Clone, Copy, PartialEq, Eq)]
pub struct Ended {
    pub ok: u64,
    pub non2xx: u64,
    pub transport: u64,
    pub aborted: u64,
}

/// How a run ended, from its statuses and its errors.
pub fn summarise(codes: &Vec<(String, u64)>, errs: &Vec<(String, u64)>) -> (e: Ended)
    requires
        sum_where(counts_of(codes@), any_name()) <= u64::MAX,
        sum_where(counts_of(errs@), any_name()) <= u64::MAX,
    ensures
        e.ok == sum_where(counts_of(codes@), is_2xx()),
        e.non2xx == sum_where(counts_of(codes@), not_2xx()),
        e.aborted == sum_where(counts_of(errs@), in_flight()),
        e.transport + e.aborted == sum_where(counts_of(errs@), any_name()),
{
    let ghost cs = counts_of(codes@);
    let ghost es = counts_of(errs@);
    let mut ok: u64 = 0;
    let mut non2xx: u64 = 0;
    let mut i: usize = 0;
    assert(cs.take(0) =~= Seq::empty());
    while i < codes.len()
        invariant
            i <= codes.len(),
            cs == counts_of(codes@),
            sum_where(cs, any_name()) <= u64::MAX,
            ok == sum_where(cs.take(i as int), is_2xx()),
            non2xx == sum_where(cs.take(i as int), not_2xx()),
        decreases codes.len() - i,
    {
        proof {
            assert(cs.take(i + 1).drop_last() =~= cs.take(i as int));
            lemma_sums_grow(cs, i + 1);
            lemma_sums(cs.take(i + 1), is_2xx());
            lemma_sums(cs.take(i + 1), not_2xx());
        }
        if starts_with(codes[i].0.as_str(), "2") {
            ok = ok + codes[i].1;
        } else {
            non2xx = non2xx + codes[i].1;
        }
        i = i + 1;
    }
    assert(cs.take(i as int) =~= cs);
    let mut aborted: u64 = 0;
    let mut all: u64 = 0;
    i = 0;
    assert(es.take(0) =~= Seq::empty());
    while i < errs.len()
        invariant
            i <= errs.len(),
            es == counts_of(errs@),
            sum_where(es, any_name()) <= u64::MAX,
            aborted == sum_where(es.take(i as int), in_flight()),
            all == sum_where(es.take(i as int), any_name()),
            aborted <= all,
        decreases errs.len() - i,
    {
        proof {
            assert(es.take(i + 1).drop_last() =~= es.take(i as int));
            lemma_sums_grow(es, i + 1);
            lemma_sums(es.take(i + 1), in_flight());
        }
        if contains(errs[i].0.as_str(), "deadline") {
            aborted = aborted + errs[i].1;
        }
        all = all + errs[i].1;
        i = i + 1;
    }
    assert(es.take(i as int) =~= es);
    Ended { ok, non2xx, transport: all - aborted, aborted }
}

/// The sum of all counts, where it fits.
pub fn total(cs: &Vec<(String, u64)>) -> (r: Option<u64>)
    ensures
        r is Some <==> sum_where(counts_of(cs@), any_name()) <= u64::MAX,
        r matches Some(n) ==> n == sum_where(counts_of(cs@), any_name()),
{
    let ghost vs = counts_of(cs@);
    let mut n: u64 = 0;
    let mut i: usize = 0;
    assert(vs.take(0) =~= Seq::empty());
    while i < cs.len()
        invariant
            i <= cs.len(),
            vs == counts_of(cs@),
            n == sum_where(vs.take(i as int), any_name()),
        decreases cs.len() - i,
    {
        proof {
            assert(vs.take(i + 1).drop_last() =~= vs.take(i as int));
            lemma_sums_grow(vs, i + 1);
        }
        if cs[i].1 > u64::MAX - n {
            return None;
        }
        n = n + cs[i].1;
        i = i + 1;
    }
    assert(vs.take(i as int) =~= vs);
    Some(n)
}

/// A result with nothing but errors measured an error path, however fast it was.
pub fn measured_errors(e: &Ended) -> (r: bool)
    ensures
        r == (e.non2xx > 0 && e.ok == 0),
{
    e.non2xx > 0 && e.ok == 0
}

/// Every request that ended is counted once.
pub proof fn law_every_answer_is_counted_once(codes: Seq<(Seq<char>, u64)>)
    ensures
        sum_where(codes, is_2xx()) + sum_where(codes, not_2xx()) == sum_where(codes, any_name()),
    decreases codes.len(),
{
    if codes.len() > 0 {
        law_every_answer_is_counted_once(codes.drop_last());
    }
}

// ------------------------------------------------------------- cold starts --

/// One start: in all, and its phases, in microseconds.
#[derive(Debug, Clone, Copy, PartialEq, Eq)]
pub struct Start {
    pub total: u64,
    pub fetch: u64,
    pub build: u64,
    pub link: u64,
}

/// What stands between the first and the second `mark` of a line, or behind the first.
pub open spec fn second_field(line: Seq<char>, mark: Seq<char>) -> Option<Seq<char>> {
    match find_from(line, mark, 0) {
        None => None,
        Some(i) => {
            let at = i + mark.len();
            match find_from(line, mark, at) {
                None => Some(line.skip(at)),
                Some(j) => Some(line.subrange(at, j)),
            }
        },
    }
}

fn second(line: &str, mark: &str) -> (r: Option<String>)
    ensures
        (match r {
            Some(t) => Some(t@),
            None => None,
        }) == second_field(line@, mark@),
{
    let cs = chars_of(line);
    let m = chars_of(mark);
    match find_chars(&cs, &m, 0) {
        None => None,
        Some(i) => {
            let at = i + m.len();
            match find_chars(&cs, &m, at) {
                None => {
                    let t = slice_text(&cs, at, cs.len());
                    assert(t@ =~= line@.skip(at as int));
                    Some(t)
                },
                Some(j) => Some(slice_text(&cs, at, j)),
            }
        },
    }
}

/// What stands before and behind the first `mark` of a text.
pub open spec fn parted(s: Seq<char>, mark: Seq<char>) -> Option<(Seq<char>, Seq<char>)> {
    match find_from(s, mark, 0) {
        None => None,
        Some(i) => Some((s.take(i), s.skip(i + mark.len()))),
    }
}

fn part(s: &str, mark: &str) -> (r: Option<(String, String)>)
    ensures
        (match r {
            Some((a, b)) => Some((a@, b@)),
            None => None,
        }) == parted(s@, mark@),
{
    let cs = chars_of(s);
    let m = chars_of(mark);
    match find_chars(&cs, &m, 0) {
        None => None,
        Some(i) => {
            let a = slice_text(&cs, 0, i);
            let b = slice_text(&cs, i + m.len(), cs.len());
            assert(a@ =~= s@.take(i as int));
            assert(b@ =~= s@.skip(i + m@.len()));
            Some((a, b))
        },
    }
}

/// A text with everything but its digits blanked.
pub open spec fn digits_only(s: Seq<char>) -> Seq<char> {
    s.map_values(
        |c: char|
            if digit(c) {
                c
            } else {
                ' '
            },
    )
}

/// A number that fits sixty-four bits.
pub open spec fn fits(s: Seq<char>) -> Option<u64> {
    match number_of(s, 10) {
        Some(n) => if n <= u64::MAX {
            Some(n as u64)
        } else {
            None
        },
        None => None,
    }
}

/// The numbers of a text, in order: its runs of digits.
pub open spec fn numbers_in(s: Seq<char>) -> Seq<u64> {
    numbers_among(words_of(digits_only(s)))
}

/// The numbers among some words.
pub open spec fn numbers_among(ws: Seq<Seq<char>>) -> Seq<u64>
    decreases ws.len(),
{
    if ws.len() == 0 {
        Seq::empty()
    } else {
        match fits(ws.last()) {
            Some(n) => numbers_among(ws.drop_last()).push(n),
            None => numbers_among(ws.drop_last()),
        }
    }
}

fn numbers(s: &str) -> (out: Vec<u64>)
    ensures
        out@ == numbers_in(s@),
{
    let cs = chars_of(s);
    let ghost want = digits_only(s@);
    let mut blanked = String::new();
    let mut i: usize = 0;
    assert(blanked@ =~= want.take(0));
    while i < cs.len()
        invariant
            i <= cs.len(),
            cs@ == s@,
            want == digits_only(s@),
            blanked@ == want.take(i as int),
        decreases cs.len() - i,
    {
        let c = cs[i];
        let ghost o = blanked@;
        blanked.push(
            if '0' <= c && c <= '9' {
                c
            } else {
                ' '
            },
        );
        assert(want.take(i + 1) =~= o.push(want[i as int]));
        i = i + 1;
    }
    assert(want.take(i as int) =~= want);
    let ws = words(blanked.as_str());
    let ghost all = strs(ws@);
    let mut out: Vec<u64> = Vec::new();
    i = 0;
    assert(all.take(0) =~= Seq::empty());
    assert(out@ =~= numbers_among(all.take(0)));
    while i < ws.len()
        invariant
            i <= ws.len(),
            all == strs(ws@),
            out@ == numbers_among(all.take(i as int)),
        decreases ws.len() - i,
    {
        assert(all.take(i + 1).drop_last() =~= all.take(i as int));
        assert(all.take(i + 1).last() == ws@[i as int]@);
        match parse_u64(ws[i].as_str()) {
            Some(n) => {
                out.push(n);
            },
            None => {},
        }
        i = i + 1;
    }
    assert(all.take(i as int) =~= all);
    out
}

/// The start that a line of a host's log tells of, and whether it was loaded from the
/// cache.
pub open spec fn start_in(line: Seq<char>) -> Option<(Start, bool)> {
    match second_field(line, " in "@) {
        None => None,
        Some(rest) => match parted(rest, " us ("@) {
            None => None,
            Some((total, tail)) => match fits(trim_of(total)) {
                None => None,
                Some(total) => {
                    let n = numbers_in(tail);
                    if n.len() < 3 {
                        None
                    } else {
                        Some(
                            (
                                Start { total, fetch: n[0], build: n[1], link: n[2] },
                                holds(tail, "cache-load"@),
                            ),
                        )
                    }
                },
            },
        },
    }
}

/// The start that a line of a host's log tells of.
pub fn start(line: &str) -> (r: Option<(Start, bool)>)
    ensures
        r == start_in(line@),
{
    match second(line, " in ") {
        None => None,
        Some(rest) => match part(rest.as_str(), " us (") {
            None => None,
            Some((total, tail)) => {
                let t = trim(total.as_str());
                match parse_u64(t.as_str()) {
                    None => None,
                    Some(total) => {
                        let n = numbers(tail.as_str());
                        if n.len() < 3 {
                            None
                        } else {
                            Some(
                                (
                                    Start { total, fetch: n[0], build: n[1], link: n[2] },
                                    contains(tail.as_str(), "cache-load"),
                                ),
                            )
                        }
                    },
                }
            },
        },
    }
}

/// The starts of a log that were loaded from the cache, or that were not, in order.
pub open spec fn starts_of(ls: Seq<Seq<char>>, warm: bool) -> Seq<Start>
    decreases ls.len(),
{
    if ls.len() == 0 {
        Seq::empty()
    } else {
        match start_in(ls.last()) {
            Some((s, w)) => if w == warm {
                starts_of(ls.drop_last(), warm).push(s)
            } else {
                starts_of(ls.drop_last(), warm)
            },
            None => starts_of(ls.drop_last(), warm),
        }
    }
}

/// The starts of a log: those that compiled, and those that were loaded from the cache.
pub fn coldstart(log: &str) -> (r: (Vec<Start>, Vec<Start>))
    ensures
        r.0@ == starts_of(lines_of(log@), false),
        r.1@ == starts_of(lines_of(log@), true),
{
    let ls = lines(log);
    let ghost all = strs(ls@);
    let mut cold: Vec<Start> = Vec::new();
    let mut warm: Vec<Start> = Vec::new();
    let mut i: usize = 0;
    assert(all.take(0) =~= Seq::empty());
    assert(cold@ =~= starts_of(all.take(0), false));
    assert(warm@ =~= starts_of(all.take(0), true));
    while i < ls.len()
        invariant
            i <= ls.len(),
            all == strs(ls@),
            cold@ == starts_of(all.take(i as int), false),
            warm@ == starts_of(all.take(i as int), true),
        decreases ls.len() - i,
    {
        assert(all.take(i + 1).drop_last() =~= all.take(i as int));
        assert(all.take(i + 1).last() == ls@[i as int]@);
        match start(ls[i].as_str()) {
            Some((s, w)) => if w {
                warm.push(s);
            } else {
                cold.push(s);
            },
            None => {},
        }
        i = i + 1;
    }
    assert(all.take(i as int) =~= all);
    (cold, warm)
}

/// The middle of some numbers: the one that half of them do not exceed; nothing has
/// nothing in its middle.
pub fn median(v: &Vec<u64>) -> (m: u64)
    ensures
        v@.len() == 0 ==> m == 0,
        v@.len() > 0 ==> exists|p: Seq<usize>| #[trigger]
            ranks(p, v@) && m == v@[p[v@.len() as int / 2] as int],
{
    if v.len() == 0 {
        return 0;
    }
    let p = stable_order(v);
    assert(ranks(p@, v@));
    let at = p[v.len() / 2];
    v[at]
}

/// The least of some numbers.
pub fn least(v: &Vec<u64>) -> (m: u64)
    requires
        v@.len() > 0,
    ensures
        v@.contains(m),
        forall|i: int| 0 <= i < v@.len() ==> m <= #[trigger] v@[i],
{
    let mut m: u64 = v[0];
    let mut i: usize = 1;
    assert(v@.contains(m));
    while i < v.len()
        invariant
            1 <= i <= v.len(),
            v@.contains(m),
            forall|k: int| 0 <= k < i ==> m <= #[trigger] v@[k],
        decreases v.len() - i,
    {
        if v[i] < m {
            m = v[i];
            assert(v@.contains(m));
        }
        i = i + 1;
    }
    m
}

/// The greatest of some numbers.
pub fn greatest(v: &Vec<u64>) -> (m: u64)
    requires
        v@.len() > 0,
    ensures
        v@.contains(m),
        forall|i: int| 0 <= i < v@.len() ==> m >= #[trigger] v@[i],
{
    let mut m: u64 = v[0];
    let mut i: usize = 1;
    assert(v@.contains(m));
    while i < v.len()
        invariant
            1 <= i <= v.len(),
            v@.contains(m),
            forall|k: int| 0 <= k < i ==> m >= #[trigger] v@[k],
        decreases v.len() - i,
    {
        if v[i] > m {
            m = v[i];
            assert(v@.contains(m));
        }
        i = i + 1;
    }
    m
}

// ---------------------------------------------------------------- replicas --

/// The counts that an inventory entry's instances state.
pub open spec fn count_instances(items: Seq<Tree>) -> nat
    decreases items.len(),
{
    if items.len() == 0 {
        0
    } else {
        count_instances(items.drop_last()) + match items.last().field("count"@) {
            Some(Tree::Unsigned(n)) => n as nat,
            _ => 0nat,
        }
    }
}

/// The instances of an inventory entry.
pub open spec fn instances_in(v: Tree) -> Seq<Tree> {
    match v.field("instances"@) {
        Some(Tree::List(l)) => l,
        _ => Seq::empty(),
    }
}

/// The replicas that a line of an inventory dump tells of: none where it is blank or
/// does not read, so that one broken line does not lose the others.
pub open spec fn replicas_in(line: Seq<char>) -> nat {
    if trim_of(line).len() == 0 {
        0
    } else {
        match json_in(trim_of(line)) {
            Some(v) => count_instances(instances_in(v)),
            None => 0,
        }
    }
}

/// The replicas of a whole dump.
pub open spec fn replicas_of(ls: Seq<Seq<char>>) -> nat
    decreases ls.len(),
{
    if ls.len() == 0 {
        0
    } else {
        replicas_of(ls.drop_last()) + replicas_in(ls.last())
    }
}

/// The instances of an inventory entry.
pub fn instances(v: &Json) -> (r: Option<&Vec<Json>>)
    ensures
        match r {
            Some(l) => instances_in(v@) == trees(l@),
            None => instances_in(v@).len() == 0,
        },
{
    match v.field("instances") {
        Some(i) => i.list(),
        None => None,
    }
}

/// How many replicas one instance stands for.
pub fn count_of(i: &Json) -> (n: u64)
    ensures
        n == match i@.field("count"@) {
            Some(Tree::Unsigned(n)) => n,
            _ => 0,
        },
{
    match i.field("count") {
        Some(c) => match c.number() {
            Some(n) => n,
            None => 0,
        },
        None => 0,
    }
}

fn sum_instances(items: &Vec<Json>) -> (r: Option<u64>)
    ensures
        r is Some <==> count_instances(trees(items@)) <= u64::MAX,
        r matches Some(n) ==> n == count_instances(trees(items@)),
{
    let ghost ts = trees(items@);
    let mut n: u64 = 0;
    let mut i: usize = 0;
    assert(ts.take(0) =~= Seq::empty());
    while i < items.len()
        invariant
            i <= items.len(),
            ts == trees(items@),
            n == count_instances(ts.take(i as int)),
        decreases items.len() - i,
    {
        assert(ts.take(i + 1).drop_last() =~= ts.take(i as int));
        assert(ts.take(i + 1).last() == items@[i as int]@);
        let c = count_of(&items[i]);
        proof {
            lemma_instances_grow(ts, i + 1);
        }
        if c > u64::MAX - n {
            return None;
        }
        n = n + c;
        i = i + 1;
    }
    assert(ts.take(i as int) =~= ts);
    Some(n)
}

proof fn lemma_instances_grow(ts: Seq<Tree>, i: int)
    requires
        0 <= i <= ts.len(),
    ensures
        count_instances(ts.take(i)) <= count_instances(ts),
    decreases ts.len(),
{
    if i < ts.len() {
        lemma_instances_grow(ts.drop_last(), i);
        assert(ts.drop_last().take(i) =~= ts.take(i));
    } else {
        assert(ts.take(i) =~= ts);
    }
}

proof fn lemma_replicas_grow(ls: Seq<Seq<char>>, i: int)
    requires
        0 <= i <= ls.len(),
    ensures
        replicas_of(ls.take(i)) <= replicas_of(ls),
    decreases ls.len(),
{
    if i < ls.len() {
        lemma_replicas_grow(ls.drop_last(), i);
        assert(ls.drop_last().take(i) =~= ls.take(i));
    } else {
        assert(ls.take(i) =~= ls);
    }
}

/// The replicas of a dump, where their number fits.
pub fn replicas(dump: &Vec<String>) -> (r: Option<u64>)
    ensures
        r is Some <==> replicas_of(strs(dump@)) <= u64::MAX,
        r matches Some(n) ==> n == replicas_of(strs(dump@)),
{
    let ghost ls = strs(dump@);
    let mut n: u64 = 0;
    let mut i: usize = 0;
    assert(ls.take(0) =~= Seq::empty());
    while i < dump.len()
        invariant
            i <= dump.len(),
            ls == strs(dump@),
            n == replicas_of(ls.take(i as int)),
        decreases dump.len() - i,
    {
        assert(ls.take(i + 1).drop_last() =~= ls.take(i as int));
        assert(ls.take(i + 1).last() == dump@[i as int]@);
        proof {
            lemma_replicas_grow(ls, i + 1);
        }
        let line = trim(dump[i].as_str());
        let mut found: Option<u64> = Some(0);
        if !line.as_str().is_empty() {
            match parse(line.as_str()) {
                Some(v) => {
                    found = match instances(&v) {
                        Some(l) => sum_instances(l),
                        None => Some(0),
                    };
                },
                None => {},
            }
        }
        match found {
            None => {
                return None;
            },
            Some(c) => {
                if c > u64::MAX - n {
                    return None;
                }
                n = n + c;
            },
        }
        i = i + 1;
    }
    assert(ls.take(i as int) =~= ls);
    Some(n)
}

// -------------------------------------------------------------------- load --

/// Nanoseconds between the requests of one of `workers` workers that send `rate` a
/// second together. It is an arrival rate: it does not fall when the fleet slows down.
pub open spec fn pause_of(workers: u64, rate: u64) -> int {
    let all = if 1000000000 * workers > u64::MAX {
        u64::MAX as int
    } else {
        1000000000 * workers
    };
    all / (if rate < 1 {
        1
    } else {
        rate as int
    })
}

/// Nanoseconds between the requests of one worker.
pub fn pause(workers: u64, rate: u64) -> (n: u64)
    ensures
        n == pause_of(workers, rate),
{
    let all: u64 = match 1000000000u64.checked_mul(workers) {
        Some(v) => v,
        None => u64::MAX,
    };
    let r: u64 = if rate < 1 {
        1
    } else {
        rate
    };
    all / r
}

/// The second that an answer is counted under.
pub fn bucket(elapsed: u64, secs: u64) -> (n: u64)
    ensures
        n == if elapsed < secs {
            elapsed
        } else {
            secs
        },
{
    if elapsed < secs {
        elapsed
    } else {
        secs
    }
}

/// Something that happened, and when.
#[derive(Debug, PartialEq, Eq)]
pub struct Mark {
    pub at: u64,
    pub what: String,
}

/// A line of the events: when, and what.
pub fn event_line(line: &str) -> (r: Option<(String, String)>)
    ensures
        (match r {
            Some((a, b)) => Some((a@, b@)),
            None => None,
        }) == split_once_of(trim_of(line@), ' '),
{
    let t = trim(line);
    split_once(t.as_str(), ' ')
}

/// An event as plain values.
pub open spec fn mark_view(m: Mark) -> (u64, Seq<char>) {
    (m.at, m.what@)
}

/// Events as plain values.
pub open spec fn mark_views(ms: Seq<Mark>) -> Seq<(u64, Seq<char>)> {
    ms.map_values(|m: Mark| mark_view(m))
}

/// `p` lists events by when they happened, and those of one second by what they are.
pub open spec fn in_time(p: Seq<usize>, es: Seq<(u64, Seq<char>)>) -> bool {
    &&& permutes(p, es.len() as int)
    &&& forall|a: int, b: int|
        0 <= a < b < p.len() ==> es[p[a] as int].0 < es[p[b] as int].0 || (es[p[a] as int].0
            == es[p[b] as int].0 && !before(es[p[b] as int].1, es[p[a] as int].1))
}

/// Events in the order in which they happened.
pub fn sort_events(es: &Vec<Mark>) -> (out: Vec<Mark>)
    ensures
        exists|p: Seq<usize>| #[trigger]
            in_time(p, mark_views(es@)) && mark_views(out@) == p.map_values(
                |i: usize| mark_views(es@)[i as int],
            ),
{
    let ghost vs = mark_views(es@);
    let mut whats: Vec<String> = Vec::new();
    let mut i: usize = 0;
    while i < es.len()
        invariant
            i <= es.len(),
            whats@.len() == i,
            forall|k: int| 0 <= k < i ==> (#[trigger] whats@[k])@ == es@[k].what@,
        decreases es.len() - i,
    {
        whats.push(es[i].what.clone());
        i = i + 1;
    }
    let by_what = stable_order_texts(&whats);
    let mut times: Vec<u64> = Vec::new();
    i = 0;
    while i < by_what.len()
        invariant
            i <= by_what.len(),
            permutes(by_what@, es@.len() as int),
            times@.len() == i,
            forall|k: int| 0 <= k < i ==> #[trigger] times@[k] == es@[by_what@[k] as int].at,
        decreases by_what.len() - i,
    {
        times.push(es[by_what[i]].at);
        i = i + 1;
    }
    let by_time = stable_order(&times);
    let ghost p = by_time@.map_values(|k: usize| by_what@[k as int]);
    proof {
        assert(permutes(p, es@.len() as int)) by {
            assert forall|a: int| 0 <= a < p.len() implies #[trigger] p[a] < es@.len() by {
                assert(by_what@[by_time@[a] as int] < es@.len());
            }
            assert forall|a: int, b: int| 0 <= a < b < p.len() implies p[a] != p[b] by {
                let (x, y) = (by_time@[a] as int, by_time@[b] as int);
                assert(x != y);
                if x < y {
                    assert(by_what@[x] != by_what@[y]);
                } else {
                    assert(by_what@[y] != by_what@[x]);
                }
            }
        }
        assert forall|a: int, b: int| 0 <= a < b < p.len() implies vs[p[a] as int].0
            < vs[p[b] as int].0 || (vs[p[a] as int].0 == vs[p[b] as int].0 && !before(
            vs[p[b] as int].1,
            vs[p[a] as int].1,
        )) by {
            let (x, y) = (by_time@[a] as int, by_time@[b] as int);
            assert(times@[x] == es@[by_what@[x] as int].at);
            assert(times@[y] == es@[by_what@[y] as int].at);
            assert(whats@[by_what@[x] as int]@ == vs[p[a] as int].1);
            assert(whats@[by_what@[y] as int]@ == vs[p[b] as int].1);
            if times@[x] == times@[y] {
                assert(x < y);
                let (s, t) = (vs[p[a] as int].1, vs[p[b] as int].1);
                let ws = strs(whats@);
                assert(ws[by_what@[x] as int] == s);
                assert(ws[by_what@[y] as int] == t);
                assert(before(ws[by_what@[x] as int], ws[by_what@[y] as int]) || s == t);
                lemma_before_irreflexive(s);
                if before(s, t) && before(t, s) {
                    lemma_before_transitive(s, t, s);
                }
            }
        }
    }
    let mut out: Vec<Mark> = Vec::new();
    i = 0;
    let ghost want = p.map_values(|k: usize| vs[k as int]);
    assert(mark_views(out@) =~= want.take(0));
    while i < by_time.len()
        invariant
            i <= by_time.len(),
            by_time@.len() == es@.len(),
            permutes(by_time@, times@.len() as int),
            times@.len() == by_what@.len(),
            permutes(by_what@, es@.len() as int),
            p == by_time@.map_values(|k: usize| by_what@[k as int]),
            vs == mark_views(es@),
            want == p.map_values(|k: usize| vs[k as int]),
            mark_views(out@) == want.take(i as int),
        decreases by_time.len() - i,
    {
        let at = by_what[by_time[i]];
        let m = Mark { at: es[at].at, what: es[at].what.clone() };
        let ghost o = out@;
        out.push(m);
        assert(mark_views(out@) =~= mark_views(o).push(mark_view(m)));
        assert(want[i as int] == vs[at as int]);
        assert(want.take(i + 1) =~= want.take(i as int).push(want[i as int]));
        i = i + 1;
    }
    assert(want.take(i as int) =~= want);
    assert(in_time(p, mark_views(es@)));
    out
}

/// Events by the second of the run in which they happened, of those of one second the
/// last. What happened before the run counts at its start.
pub open spec fn marks_of(es: Seq<(u64, Seq<char>)>, wall: u64) -> Seq<(u64, Seq<char>)>
    decreases es.len(),
{
    if es.len() == 0 {
        Seq::empty()
    } else {
        let m = marks_of(es.drop_last(), wall);
        let at = if es.last().0 < wall {
            0u64
        } else {
            (es.last().0 - wall) as u64
        };
        let head = if m.len() > 0 && m.last().0 == at {
            m.drop_last()
        } else {
            m
        };
        head.push((at, es.last().1))
    }
}

/// Events by the second of the run in which they happened.
pub fn marks(es: &Vec<Mark>, wall: u64) -> (out: Vec<Mark>)
    ensures
        mark_views(out@) == marks_of(mark_views(es@), wall),
{
    let ghost vs = mark_views(es@);
    let mut out: Vec<Mark> = Vec::new();
    let mut i: usize = 0;
    assert(vs.take(0) =~= Seq::empty());
    assert(mark_views(out@) =~= marks_of(vs.take(0), wall));
    while i < es.len()
        invariant
            i <= es.len(),
            vs == mark_views(es@),
            mark_views(out@) == marks_of(vs.take(i as int), wall),
        decreases es.len() - i,
    {
        assert(vs.take(i + 1).drop_last() =~= vs.take(i as int));
        assert(vs.take(i + 1).last() == mark_view(es@[i as int]));
        let at: u64 = if es[i].at < wall {
            0
        } else {
            es[i].at - wall
        };
        let n = out.len();
        let ghost o = out@;
        if n > 0 && out[n - 1].at == at {
            assert(mark_views(o).last().0 == at);
            out.pop();
            assert(mark_views(out@) =~= mark_views(o).drop_last());
        } else if n > 0 {
            assert(mark_views(o).last().0 != at);
        }
        let m = Mark { at, what: es[i].what.clone() };
        let ghost q = out@;
        out.push(m);
        assert(mark_views(out@) =~= mark_views(q).push(mark_view(m)));
        i = i + 1;
    }
    assert(vs.take(i as int) =~= vs);
    out
}

/// Is this second shown? Only where something failed or happened, and at the edges.
pub open spec fn second_shown(i: int, bad: u64, marked: bool, secs: u64) -> bool {
    bad > 0 || marked || i < 2 || i == secs
}

/// What happened at a second: the last mark of it.
pub open spec fn mark_at(ms: Seq<Mark>, at: int) -> Option<Seq<char>>
    decreases ms.len(),
{
    if ms.len() == 0 {
        None
    } else if ms.last().at == at {
        Some(ms.last().what@)
    } else {
        mark_at(ms.drop_last(), at)
    }
}

/// The line of one second.
pub open spec fn second_line(i: int, ok: u64, bad: u64, mark: Option<Seq<char>>) -> Seq<char> {
    "    "@ + pad_start_of(dec_of(i as nat), 4) + " "@ + pad_start_of(dec_of(ok as nat), 5) + " "@
        + pad_start_of(dec_of(bad as nat), 6) + match mark {
        Some(m) => "   <- "@ + m,
        None => Seq::empty(),
    }
}

/// The lines of the seconds that are shown, among the first `n`.
pub open spec fn second_lines(buckets: Seq<(u64, u64)>, ms: Seq<Mark>, secs: u64, n: int) -> Seq<
    Seq<char>,
>
    decreases n,
{
    if n <= 0 {
        Seq::empty()
    } else {
        let i = n - 1;
        let m = mark_at(ms, i);
        let before = second_lines(buckets, ms, secs, i);
        if second_shown(i, buckets[i].1, m is Some, secs) {
            before.push(second_line(i, buckets[i].0, buckets[i].1, m))
        } else {
            before
        }
    }
}

fn find_mark(ms: &Vec<Mark>, at: u64) -> (r: Option<String>)
    ensures
        (match r {
            Some(t) => Some(t@),
            None => None,
        }) == mark_at(ms@, at as int),
{
    let mut i: usize = ms.len();
    assert(ms@.take(i as int) =~= ms@);
    while i > 0
        invariant
            i <= ms.len(),
            mark_at(ms@.take(i as int), at as int) == mark_at(ms@, at as int),
        decreases i,
    {
        assert(ms@.take(i as int).drop_last() =~= ms@.take(i - 1));
        assert(ms@.take(i as int).last() == ms@[i - 1]);
        if ms[i - 1].at == at {
            return Some(ms[i - 1].what.clone());
        }
        i = i - 1;
    }
    None
}

/// What happened second by second: how many answers were good, how many failed, and
/// what happened to the fleet.
pub fn load_lines(buckets: &Vec<(u64, u64)>, ms: &Vec<Mark>, secs: u64) -> (out: Vec<String>)
    ensures
        strs(out@) == second_lines(buckets@, ms@, secs, buckets@.len() as int),
{
    let mut out: Vec<String> = Vec::new();
    let mut i: usize = 0;
    assert(strs(out@) =~= second_lines(buckets@, ms@, secs, 0));
    while i < buckets.len()
        invariant
            i <= buckets.len(),
            strs(out@) == second_lines(buckets@, ms@, secs, i as int),
        decreases buckets.len() - i,
    {
        let (ok, bad) = buckets[i];
        let mark = find_mark(ms, i as u64);
        let marked = mark.is_some();
        if bad > 0 || marked || i < 2 || i as u64 == secs {
            let a = dec(i as u64);
            let b = dec(ok);
            let c = dec(bad);
            let tail = match mark {
                Some(m) => "   <- ".to_string().concat(m.as_str()),
                None => String::new(),
            };
            assert(tail@ =~= match mark_at(ms@, i as int) {
                Some(m) => "   <- "@ + m,
                None => Seq::empty(),
            });
            let line = "    ".to_string().concat(pad_start(a.as_str(), 4).as_str()).concat(
                " ",
            ).concat(pad_start(b.as_str(), 5).as_str()).concat(" ").concat(
                pad_start(c.as_str(), 6).as_str(),
            ).concat(tail.as_str());
            let ghost o = out@;
            out.push(line);
            assert(strs(out@) =~= strs(o).push(line@));
        }
        i = i + 1;
    }
    out
}

/// The first second from `i` to before `end` in which something failed.
pub open spec fn first_bad(buckets: Seq<(u64, u64)>, i: int, end: int) -> Option<int>
    decreases end - i,
{
    if i < 0 || i >= end {
        None
    } else if buckets[i].1 > 0 {
        Some(i)
    } else {
        first_bad(buckets, i + 1, end)
    }
}

/// The last second from `i` to before `end` in which something failed.
pub open spec fn last_bad(buckets: Seq<(u64, u64)>, i: int, end: int) -> Option<int>
    decreases end - i,
{
    if i < 0 || i >= end {
        None
    } else if buckets[end - 1].1 > 0 {
        Some(end - 1)
    } else {
        last_bad(buckets, i, end - 1)
    }
}

/// What followed an event, up to `end`.
pub open spec fn window_line(buckets: Seq<(u64, u64)>, at: int, what: Seq<char>, end: int) -> Seq<
    char,
> {
    match (first_bad(buckets, at, end), last_bad(buckets, at, end)) {
        (Some(f), Some(l)) => "    after "@ + debug_of(what) + ": errors in seconds "@ + dec_of(
            f as nat,
        ) + ".."@ + dec_of(l as nat) + " ("@ + dec_of((l - at + 1) as nat)
            + "s from the event to the last error)"@,
        _ => "    after "@ + debug_of(what) + ": no failed request at all"@,
    }
}

/// What followed an event, up to the next or the end of the run. Without that bound one
/// kill is blamed for another's errors.
pub fn window(buckets: &Vec<(u64, u64)>, at: u64, what: &str, end: u64) -> (out: String)
    requires
        at < end ==> end <= buckets@.len(),
    ensures
        out@ == window_line(buckets@, at as int, what@, end as int),
{
    let shown = debug(what);
    let n = buckets.len();
    if at >= end {
        return "    after ".to_string().concat(shown.as_str()).concat(
            ": no failed request at all",
        );
    }
    let stop: usize = end as usize;
    let from: usize = at as usize;
    assert(stop == end && from == at && end <= n);
    let mut i: usize = from;
    while i < stop && buckets[i].1 == 0
        invariant
            from <= i <= stop <= buckets@.len(),
            first_bad(buckets@, i as int, stop as int) == first_bad(
                buckets@,
                from as int,
                stop as int,
            ),
        decreases stop - i,
    {
        i = i + 1;
    }
    if i >= stop {
        return "    after ".to_string().concat(shown.as_str()).concat(
            ": no failed request at all",
        );
    }
    let mut j: usize = stop;
    while buckets[j - 1].1 == 0
        invariant
            from <= i < j <= stop <= buckets@.len(),
            buckets@[i as int].1 > 0,
            last_bad(buckets@, from as int, j as int) == last_bad(
                buckets@,
                from as int,
                stop as int,
            ),
        decreases j,
    {
        j = j - 1;
    }
    let l: usize = j - 1;
    "    after ".to_string().concat(shown.as_str()).concat(": errors in seconds ").concat(
        dec(i as u64).as_str(),
    ).concat("..").concat(dec(l as u64).as_str()).concat(" (").concat(
        dec((l - from + 1) as u64).as_str(),
    ).concat("s from the event to the last error)")
}

/// Where the window of an event ends: at the next one, or with the run.
pub open spec fn window_end(ms: Seq<Mark>, i: int, last: u64) -> u64 {
    if i + 1 < ms.len() {
        ms[i + 1].at
    } else {
        last
    }
}

/// What followed each event, up to the next.
pub open spec fn windows_of(buckets: Seq<(u64, u64)>, ms: Seq<Mark>, secs: u64) -> Seq<Seq<char>> {
    Seq::new(
        ms.len(),
        |i: int|
            window_line(buckets, ms[i].at as int, ms[i].what@, window_end(ms, i, secs) as int),
    )
}

/// What followed each event. No event is blamed for what came after the next.
pub fn windows(buckets: &Vec<(u64, u64)>, ms: &Vec<Mark>, secs: u64) -> (out: Vec<String>)
    requires
        forall|i: int|
            0 <= i < ms@.len() && (#[trigger] ms@[i]).at < window_end(ms@, i, secs)
                ==> window_end(ms@, i, secs) <= buckets@.len(),
    ensures
        strs(out@) == windows_of(buckets@, ms@, secs),
{
    let ghost want = windows_of(buckets@, ms@, secs);
    let mut out: Vec<String> = Vec::new();
    let mut i: usize = 0;
    assert(strs(out@) =~= want.take(0));
    while i < ms.len()
        invariant
            i <= ms.len(),
            want == windows_of(buckets@, ms@, secs),
            forall|i: int|
                0 <= i < ms@.len() && (#[trigger] ms@[i]).at < window_end(ms@, i, secs)
                    ==> window_end(ms@, i, secs) <= buckets@.len(),
            strs(out@) == want.take(i as int),
        decreases ms.len() - i,
    {
        let end: u64 = if ms.len() - i > 1 {
            ms[i + 1].at
        } else {
            secs
        };
        assert(end == window_end(ms@, i as int, secs));
        assert(ms@[i as int].at == ms[i as int].at);
        let line = window(buckets, ms[i].at, ms[i].what.as_str(), end);
        let ghost o = out@;
        out.push(line);
        assert(strs(out@) =~= strs(o).push(line@));
        assert(want.take(i + 1) =~= want.take(i as int).push(want[i as int]));
        i = i + 1;
    }
    assert(want.take(i as int) =~= want);
    out
}

/// The good answers of all seconds, and the failed ones.
pub open spec fn answered(buckets: Seq<(u64, u64)>) -> (nat, nat)
    decreases buckets.len(),
{
    if buckets.len() == 0 {
        (0, 0)
    } else {
        let (ok, bad) = answered(buckets.drop_last());
        (ok + buckets.last().0 as nat, bad + buckets.last().1 as nat)
    }
}

proof fn lemma_answered_grows(buckets: Seq<(u64, u64)>, i: int)
    requires
        0 <= i <= buckets.len(),
    ensures
        answered(buckets.take(i)).0 <= answered(buckets).0,
        answered(buckets.take(i)).1 <= answered(buckets).1,
    decreases buckets.len(),
{
    if i < buckets.len() {
        lemma_answered_grows(buckets.drop_last(), i);
        assert(buckets.drop_last().take(i) =~= buckets.take(i));
    } else {
        assert(buckets.take(i) =~= buckets);
    }
}

/// The good answers of all seconds, and the failed ones, where their numbers fit.
pub fn answers(buckets: &Vec<(u64, u64)>) -> (r: Option<(u64, u64)>)
    ensures
        r is Some <==> answered(buckets@).0 <= u64::MAX && answered(buckets@).1 <= u64::MAX,
        r matches Some(p) ==> (p.0 as nat, p.1 as nat) == answered(buckets@),
{
    let mut ok: u64 = 0;
    let mut bad: u64 = 0;
    let mut i: usize = 0;
    assert(buckets@.take(0) =~= Seq::empty());
    while i < buckets.len()
        invariant
            i <= buckets.len(),
            (ok as nat, bad as nat) == answered(buckets@.take(i as int)),
        decreases buckets.len() - i,
    {
        assert(buckets@.take(i + 1).drop_last() =~= buckets@.take(i as int));
        assert(buckets@.take(i + 1).last() == buckets@[i as int]);
        proof {
            lemma_answered_grows(buckets@, i + 1);
        }
        let (a, b) = buckets[i];
        if a > u64::MAX - ok || b > u64::MAX - bad {
            return None;
        }
        ok = ok + a;
        bad = bad + b;
        i = i + 1;
    }
    assert(buckets@.take(i as int) =~= buckets@);
    Some((ok, bad))
}

// ---------------------------------------------------------------- converge --

/// A sample of the fleet: when, and how many replicas.
pub open spec fn sample_in(line: Seq<char>) -> Option<(u64, u64)> {
    match split_once_of(trim_of(line), ' ') {
        None => None,
        Some((t, n)) => match (fits(t), fits(trim_of(n))) {
            (Some(t), Some(n)) => Some((t, n)),
            _ => None,
        },
    }
}

/// The samples of a file, in order.
pub open spec fn samples_of(ls: Seq<Seq<char>>) -> Seq<(u64, u64)>
    decreases ls.len(),
{
    if ls.len() == 0 {
        Seq::empty()
    } else {
        match sample_in(ls.last()) {
            Some(s) => samples_of(ls.drop_last()).push(s),
            None => samples_of(ls.drop_last()),
        }
    }
}

/// The samples of a file.
pub fn samples(text: &str) -> (out: Vec<(u64, u64)>)
    ensures
        out@ == samples_of(lines_of(text@)),
{
    let ls = lines(text);
    let ghost all = strs(ls@);
    let mut out: Vec<(u64, u64)> = Vec::new();
    let mut i: usize = 0;
    assert(all.take(0) =~= Seq::empty());
    assert(out@ =~= samples_of(all.take(0)));
    while i < ls.len()
        invariant
            i <= ls.len(),
            all == strs(ls@),
            out@ == samples_of(all.take(i as int)),
        decreases ls.len() - i,
    {
        assert(all.take(i + 1).drop_last() =~= all.take(i as int));
        assert(all.take(i + 1).last() == ls@[i as int]@);
        let line = trim(ls[i].as_str());
        match split_once(line.as_str(), ' ') {
            Some((t, n)) => {
                let count = trim(n.as_str());
                match (parse_u64(t.as_str()), parse_u64(count.as_str())) {
                    (Some(t), Some(n)) => {
                        out.push((t, n));
                    },
                    _ => {},
                }
            },
            None => {},
        }
        i = i + 1;
    }
    assert(all.take(i as int) =~= all);
    out
}

/// Is a sample in a window?
pub open spec fn within(s: (u64, u64), at: u64, end: u64) -> bool {
    at <= s.0 && s.0 < end
}

/// The first sample from `i` on, in the window, with fewer than `want`.
pub open spec fn dip_from(rows: Seq<(u64, u64)>, at: u64, end: u64, want: u64, i: int) -> Option<
    int,
>
    decreases rows.len() - i,
{
    if i < 0 || i >= rows.len() {
        None
    } else if within(rows[i], at, end) && rows[i].1 < want {
        Some(i)
    } else {
        dip_from(rows, at, end, want, i + 1)
    }
}

/// The first sample from `i` on, in the window and later than `dip`, with `want` again.
pub open spec fn back_from(
    rows: Seq<(u64, u64)>,
    at: u64,
    end: u64,
    want: u64,
    dip: u64,
    i: int,
) -> Option<int>
    decreases rows.len() - i,
{
    if i < 0 || i >= rows.len() {
        None
    } else if within(rows[i], at, end) && rows[i].0 > dip && rows[i].1 >= want {
        Some(i)
    } else {
        back_from(rows, at, end, want, dip, i + 1)
    }
}

/// The fewest replicas among the samples of a window, and at most `most`.
pub open spec fn low_water(rows: Seq<(u64, u64)>, at: u64, end: u64, most: u64) -> u64
    decreases rows.len(),
{
    if rows.len() == 0 {
        most
    } else {
        let before = low_water(rows.drop_last(), at, end, most);
        if within(rows.last(), at, end) && rows.last().1 < before {
            rows.last().1
        } else {
            before
        }
    }
}

/// What an event did to the number of replicas. The number does not drop the moment a
/// node goes, so the dip is looked for first and the recovery after it.
pub open spec fn event_text(rows: Seq<(u64, u64)>, at: u64, what: Seq<char>, end: u64, want: u64) -> Seq<
    char,
> {
    match dip_from(rows, at, end, want, 0) {
        None => "    "@ + what + ": never observed below "@ + dec_of(want as nat),
        Some(d) => {
            let dip = rows[d].0;
            let head = "    "@ + what + ": noticed "@ + dec_of((dip - at) as nat)
                + "s after, low water "@ + dec_of(low_water(rows, at, end, u64::MAX) as nat) + "/"@
                + dec_of(want as nat);
            match back_from(rows, at, end, want, dip, 0) {
                Some(b) => head + ", back to "@ + dec_of(want as nat) + " "@ + dec_of(
                    (rows[b].0 - at) as nat,
                ) + "s after ("@ + dec_of((rows[b].0 - dip) as nat) + "s to re-place)"@,
                None => head + ", NOT restored before the run ended"@,
            }
        },
    }
}

/// What one event did to the number of replicas, up to the next.
pub fn converge(rows: &Vec<(u64, u64)>, at: u64, what: &str, end: u64, want: u64) -> (out: String)
    ensures
        out@ == event_text(rows@, at, what@, end, want),
{
    let mut i: usize = 0;
    let wanted = dec(want);
    while i < rows.len() && !(at <= rows[i].0 && rows[i].0 < end && rows[i].1 < want)
        invariant
            i <= rows.len(),
            dip_from(rows@, at, end, want, i as int) == dip_from(rows@, at, end, want, 0),
        decreases rows.len() - i,
    {
        i = i + 1;
    }
    if i >= rows.len() {
        return "    ".to_string().concat(what).concat(": never observed below ").concat(
            wanted.as_str(),
        );
    }
    let dip = rows[i].0;
    let mut low: u64 = u64::MAX;
    let mut k: usize = 0;
    assert(rows@.take(0) =~= Seq::empty());
    while k < rows.len()
        invariant
            k <= rows.len(),
            low == low_water(rows@.take(k as int), at, end, u64::MAX),
        decreases rows.len() - k,
    {
        assert(rows@.take(k + 1).drop_last() =~= rows@.take(k as int));
        let (t, n) = rows[k];
        if at <= t && t < end && n < low {
            low = n;
        }
        k = k + 1;
    }
    assert(rows@.take(k as int) =~= rows@);
    let head = "    ".to_string().concat(what).concat(": noticed ").concat(
        dec(dip - at).as_str(),
    ).concat("s after, low water ").concat(dec(low).as_str()).concat("/").concat(wanted.as_str());
    let mut b: usize = 0;
    while b < rows.len() && !(at <= rows[b].0 && rows[b].0 < end && rows[b].0 > dip && rows[b].1
        >= want)
        invariant
            b <= rows.len(),
            back_from(rows@, at, end, want, dip, b as int) == back_from(
                rows@,
                at,
                end,
                want,
                dip,
                0,
            ),
        decreases rows.len() - b,
    {
        b = b + 1;
    }
    if b >= rows.len() {
        return head.concat(", NOT restored before the run ended");
    }
    let back = rows[b].0;
    head.concat(", back to ").concat(wanted.as_str()).concat(" ").concat(
        dec(back - at).as_str(),
    ).concat("s after (").concat(dec(back - dip).as_str()).concat("s to re-place)")
}

/// What each event did to the number of replicas, up to the next.
pub open spec fn convergence(rows: Seq<(u64, u64)>, es: Seq<Mark>, want: u64) -> Seq<Seq<char>> {
    if rows.len() == 0 {
        seq!["    no samples"@]
    } else {
        Seq::new(
            es.len(),
            |i: int|
                event_text(rows, es[i].at, es[i].what@, window_end(es, i, u64::MAX), want),
        )
    }
}

/// How long the fleet ran with too few replicas, event by event.
pub fn converge_all(rows: &Vec<(u64, u64)>, es: &Vec<Mark>, want: u64) -> (out: Vec<String>)
    ensures
        strs(out@) == convergence(rows@, es@, want),
{
    let mut out: Vec<String> = Vec::new();
    if rows.len() == 0 {
        out.push("    no samples".to_string());
        assert(strs(out@) =~= seq!["    no samples"@]);
        return out;
    }
    let ghost all = convergence(rows@, es@, want);
    let mut i: usize = 0;
    assert(strs(out@) =~= all.take(0));
    while i < es.len()
        invariant
            i <= es.len(),
            rows@.len() > 0,
            all == convergence(rows@, es@, want),
            strs(out@) == all.take(i as int),
        decreases es.len() - i,
    {
        let end: u64 = if es.len() - i > 1 {
            es[i + 1].at
        } else {
            u64::MAX
        };
        assert(end == window_end(es@, i as int, u64::MAX));
        let line = converge(rows, es[i].at, es[i].what.as_str(), end, want);
        let ghost o = out@;
        out.push(line);
        assert(strs(out@) =~= strs(o).push(line@));
        assert(all.take(i + 1) =~= all.take(i as int).push(all[i as int]));
        i = i + 1;
    }
    assert(all.take(i as int) =~= all);
    out
}

/// A fleet that came back came back after it was seen to dip, and never before the
/// event.
pub proof fn law_a_recovery_follows_its_dip(
    rows: Seq<(u64, u64)>,
    at: u64,
    end: u64,
    want: u64,
    dip: u64,
    i: int,
)
    requires
        back_from(rows, at, end, want, dip, i) is Some,
    ensures
        ({
            let b = rows[back_from(rows, at, end, want, dip, i)->Some_0];
            b.0 > dip && at <= b.0 < end && b.1 >= want
        }),
    decreases rows.len() - i,
{
    if !(within(rows[i], at, end) && rows[i].0 > dip && rows[i].1 >= want) {
        law_a_recovery_follows_its_dip(rows, at, end, want, dip, i + 1);
    }
}

// ----------------------------------------------------------------- tenants --

/// Some pieces of data, as plain values.
pub open spec fn raw_of(entries: Seq<Vec<u8>>) -> Seq<Seq<u8>> {
    entries.map_values(|e: Vec<u8>| e@)
}

/// What the entries of an inventory say, in order, without those that are no JSON.
pub open spec fn snapshots_in(entries: Seq<Seq<u8>>) -> Seq<Tree> {
    entries.filter_map(|e: Seq<u8>| json_in_bytes(e))
}

/// What the entries of an inventory say. One that does not read is passed over.
pub fn snapshots(entries: &Vec<Vec<u8>>) -> (out: Vec<Json>)
    ensures
        trees(out@) == snapshots_in(raw_of(entries@)),
{
    let ghost all = raw_of(entries@);
    let ghost f = |e: Seq<u8>| json_in_bytes(e);
    let mut out: Vec<Json> = Vec::new();
    let mut i: usize = 0;
    assert(trees(out@) =~= all.take(0).filter_map(f)) by {
        reveal(Seq::filter_map);
    }
    while i < entries.len()
        invariant
            i <= entries.len(),
            all == raw_of(entries@),
            f == (|e: Seq<u8>| json_in_bytes(e)),
            trees(out@) == all.take(i as int).filter_map(f),
        decreases entries.len() - i,
    {
        proof {
            all.lemma_filter_map_take_succ(f, i as int);
            assert(all[i as int] == entries[i as int]@);
        }
        match parse_bytes(entries[i].as_slice()) {
            Some(j) => {
                let ghost o = out@;
                out.push(j);
                assert(trees(out@) =~= trees(o) + seq![j@]);
            },
            None => {},
        }
        i = i + 1;
    }
    assert(all.take(i as int) =~= all);
    out
}

/// The tenants that an inventory entry's instances name.
pub open spec fn tenants_among(items: Seq<Tree>) -> Seq<Seq<char>>
    decreases items.len(),
{
    if items.len() == 0 {
        Seq::empty()
    } else {
        match items.last().text_field("tenant"@) {
            Some(t) => tenants_among(items.drop_last()).push(t),
            None => tenants_among(items.drop_last()),
        }
    }
}

/// A text under a key, or a question mark.
pub open spec fn named_or_unknown(v: Tree, key: Seq<char>) -> Seq<char> {
    match v.text_field(key) {
        Some(t) => t,
        None => "?"@,
    }
}

fn named(v: &Json, key: &str) -> (out: String)
    ensures
        out@ == named_or_unknown(v@, key@),
{
    match v.text_field(key) {
        Some(t) => t.clone(),
        None => "?".to_string(),
    }
}

/// The node of an inventory entry, and the organisations that it holds, each once and in
/// order.
pub fn tenants_of(v: &Json) -> (r: (String, Vec<String>))
    ensures
        r.0@ == named_or_unknown(v@, "node"@),
        sorted_set_of(strs(r.1@), tenants_among(instances_in(v@))),
{
    let node = named(v, "node");
    let mut all: Vec<String> = Vec::new();
    assert(strs(all@) =~= Seq::<Seq<char>>::empty());
    match instances(v) {
        Some(l) => {
            let ghost ts = trees(l@);
            let mut i: usize = 0;
            assert(ts.take(0) =~= Seq::empty());
            while i < l.len()
                invariant
                    i <= l.len(),
                    ts == trees(l@),
                    strs(all@) == tenants_among(ts.take(i as int)),
                decreases l.len() - i,
            {
                assert(ts.take(i + 1).drop_last() =~= ts.take(i as int));
                assert(ts.take(i + 1).last() == l@[i as int]@);
                match l[i].text_field("tenant") {
                    Some(t) => {
                        let ghost o = all@;
                        all.push(t.clone());
                        assert(strs(all@) =~= strs(o).push(t@));
                    },
                    None => {},
                }
                i = i + 1;
            }
            assert(ts.take(i as int) =~= ts);
        },
        None => {
            assert(instances_in(v@) =~= Seq::empty());
        },
    }
    (node, sorted_set(&all))
}

/// The organisations that the entries of one node name, in order.
pub open spec fn held_by(vs: Seq<Tree>, node: Seq<char>) -> Seq<Seq<char>>
    decreases vs.len(),
{
    if vs.len() == 0 {
        Seq::empty()
    } else {
        held_by(vs.drop_last(), node) + if named_or_unknown(vs.last(), "node"@) == node {
            tenants_among(instances_in(vs.last()))
        } else {
            Seq::empty()
        }
    }
}

/// Some entry is of this node.
pub open spec fn reports(vs: Seq<Tree>, node: Seq<char>) -> bool {
    exists|i: int| 0 <= i < vs.len() && named_or_unknown(#[trigger] vs[i], "node"@) == node
}

/// A map holds the organisations of every node that some entry is of, each once and in
/// order.
pub open spec fn gathered(m: Map<Seq<char>, Vec<String>>, vs: Seq<Tree>) -> bool {
    &&& forall|n: Seq<char>| #[trigger] m.contains_key(n) <==> reports(vs, n)
    &&& forall|n: Seq<char>| #[trigger]
        m.contains_key(n) ==> sorted_set_of(strs(m[n]@), held_by(vs, n))
}

proof fn lemma_held(vs: Seq<Tree>, node: Seq<char>)
    requires
        !reports(vs, node),
    ensures
        held_by(vs, node) == Seq::<Seq<char>>::empty(),
    decreases vs.len(),
{
    if vs.len() > 0 {
        let first = vs.drop_last();
        assert forall|i: int| 0 <= i < first.len() implies named_or_unknown(
            #[trigger] first[i],
            "node"@,
        ) != node by {
            assert(first[i] == vs[i]);
        }
        lemma_held(first, node);
        assert(vs[vs.len() - 1] == vs.last());
        assert(held_by(vs, node) =~= Seq::<Seq<char>>::empty());
    }
}

proof fn lemma_reports(vs: Seq<Tree>, node: Seq<char>)
    requires
        vs.len() > 0,
    ensures
        reports(vs, node) == (reports(vs.drop_last(), node) || named_or_unknown(vs.last(), "node"@)
            == node),
{
    let first = vs.drop_last();
    if reports(vs, node) {
        let i = choose|i: int|
            0 <= i < vs.len() && named_or_unknown(#[trigger] vs[i], "node"@) == node;
        if i < first.len() {
            assert(first[i] == vs[i]);
        }
    }
    if reports(first, node) {
        let i = choose|i: int|
            0 <= i < first.len() && named_or_unknown(#[trigger] first[i], "node"@) == node;
        assert(vs[i] == first[i]);
    }
    assert(vs[vs.len() - 1] == vs.last());
}

proof fn lemma_either(a: Seq<Seq<char>>, b: Seq<Seq<char>>, t: Seq<char>)
    ensures
        (a + b).contains(t) == (a.contains(t) || b.contains(t)),
{
    let c = a + b;
    if a.contains(t) {
        let i = a.index_of(t);
        assert(c[i] == t);
    }
    if b.contains(t) {
        let i = b.index_of(t);
        assert(c[a.len() + i] == t);
    }
    if c.contains(t) {
        let i = c.index_of(t);
        if i < a.len() {
            assert(a[i] == t);
        } else {
            assert(b[i - a.len()] == t);
        }
    }
}

/// The organisations of every node, from what the nodes advertise.
pub fn by_node(vs: &Vec<Json>) -> (m: TextMap<Vec<String>>)
    ensures
        m.wf(),
        gathered(m@, trees(vs@)),
{
    let ghost ts = trees(vs@);
    let mut m: TextMap<Vec<String>> = TextMap::new();
    let mut i: usize = 0;
    while i < vs.len()
        invariant
            i <= vs.len(),
            ts == trees(vs@),
            m.wf(),
            gathered(m@, ts.take(i as int)),
        decreases vs.len() - i,
    {
        let ghost done = ts.take(i as int);
        let ghost next = ts.take(i + 1);
        assert(next.drop_last() =~= done);
        assert(next.last() == vs@[i as int]@);
        let (node, mut orgs) = tenants_of(&vs[i]);
        let ghost own = strs(orgs@);
        let mut all = match m.get(node.as_str()) {
            Some(known) => copy_texts(known),
            None => Vec::new(),
        };
        let ghost known = strs(all@);
        all.append(&mut orgs);
        assert(strs(all@) =~= known + own);
        let set = sorted_set(&all);
        let ghost before = m@;
        let ghost key = node@;
        proof {
            if !before.contains_key(key) {
                assert(!reports(done, key));
                lemma_held(done, key);
                assert(known =~= Seq::<Seq<char>>::empty());
            }
            let (h, t) = (held_by(done, key), tenants_among(instances_in(next.last())));
            assert(held_by(next, key) == h + t);
            assert forall|x: Seq<char>| strs(set@).contains(x) <==> held_by(next, key).contains(
                x,
            ) by {
                lemma_either(known, own, x);
                lemma_either(h, t, x);
            }
        }
        m.insert(node, set);
        proof {
            assert forall|n: Seq<char>| #[trigger] m@.contains_key(n) <==> reports(next, n) by {
                lemma_reports(next, n);
            }
            assert forall|n: Seq<char>| #[trigger] m@.contains_key(n) implies sorted_set_of(
                strs(m@[n]@),
                held_by(next, n),
            ) by {
                if n != key {
                    assert(before.contains_key(n));
                    assert(held_by(next, n) =~= held_by(done, n));
                }
            }
        }
        i = i + 1;
    }
    assert(ts.take(i as int) =~= ts);
    m
}

/// One node and its organisations.
pub open spec fn tenants_line(node: Seq<char>, orgs: Seq<Seq<char>>) -> Seq<char> {
    "    "@ + pad_end_of(node, 10) + " "@ + (if orgs.len() == 0 {
        "-"@
    } else {
        join_of(orgs, " + "@)
    }) + (if orgs.len() > 1 {
        "  <- both orgs"@
    } else {
        ""@
    })
}

/// How many nodes hold any organisation, and how many hold more than one. A node that
/// holds nothing is no evidence either way.
pub open spec fn mixing(by: Seq<(Seq<char>, Vec<String>)>) -> (nat, nat)
    decreases by.len(),
{
    if by.len() == 0 {
        (0, 0)
    } else {
        let (h, m) = mixing(by.drop_last());
        (
            h + if by.last().1@.len() > 0 {
                1nat
            } else {
                0nat
            },
            m + if by.last().1@.len() > 1 {
                1nat
            } else {
                0nat
            },
        )
    }
}

/// The verdict on the nodes.
pub open spec fn tenants_verdict(holding: nat, mixed: nat) -> Seq<char> {
    "\n  "@ + dec_of(mixed) + "/"@ + dec_of(holding)
        + " node(s) holding work hold MORE THAN ONE organisation — "@ + if mixed > 0 {
        "tenants are not mapped to machines"@
    } else {
        "WARNING: every node holds a single org"@
    }
}

/// The lines of the nodes, in the order of their names, and the verdict.
pub open spec fn tenants_text(by: Seq<(Seq<char>, Vec<String>)>) -> Seq<Seq<char>> {
    by.map_values(|e: (Seq<char>, Vec<String>)| tenants_line(e.0, strs(e.1@))).push(
        tenants_verdict(mixing(by).0, mixing(by).1),
    )
}

/// Which organisations each node holds, and whether any node holds more than one.
pub fn tenants(by: &TextMap<Vec<String>>) -> (out: Vec<String>)
    ensures
        strs(out@) == tenants_text(by.listed()),
{
    let ghost es = by.listed();
    let ghost want = es.map_values(
        |e: (Seq<char>, Vec<String>)| tenants_line(e.0, strs(e.1@)),
    );
    let mut out: Vec<String> = Vec::new();
    let mut holding: usize = 0;
    let mut mixed: usize = 0;
    let mut i: usize = 0;
    assert(es.take(0) =~= Seq::empty());
    assert(strs(out@) =~= want.take(0));
    while i < by.len()
        invariant
            i <= es.len(),
            es == by.listed(),
            want == es.map_values(
                |e: (Seq<char>, Vec<String>)| tenants_line(e.0, strs(e.1@)),
            ),
            strs(out@) == want.take(i as int),
            mixing(es.take(i as int)) == (holding as nat, mixed as nat),
            mixed <= holding <= i,
        decreases es.len() - i,
    {
        let orgs = by.value_at(i);
        let list = if orgs.len() == 0 {
            "-".to_string()
        } else {
            join(orgs, " + ")
        };
        let tag = if orgs.len() > 1 {
            "  <- both orgs"
        } else {
            ""
        };
        let name = pad_end(by.key_at(i).as_str(), 10);
        let line = "    ".to_string().concat(name.as_str()).concat(" ").concat(
            list.as_str(),
        ).concat(tag);
        assert(es.take(i + 1).drop_last() =~= es.take(i as int));
        assert(es.take(i + 1).last() == es[i as int]);
        if orgs.len() > 0 {
            holding = holding + 1;
        }
        if orgs.len() > 1 {
            mixed = mixed + 1;
        }
        let ghost o = out@;
        out.push(line);
        assert(strs(out@) =~= strs(o).push(line@));
        assert(want[i as int] == line@);
        assert(want.take(i + 1) =~= want.take(i as int).push(want[i as int]));
        i = i + 1;
    }
    assert(es.take(i as int) =~= es);
    assert(want.take(i as int) =~= want);
    let verdict = if mixed > 0 {
        "tenants are not mapped to machines"
    } else {
        "WARNING: every node holds a single org"
    };
    let last = "\n  ".to_string().concat(dec(mixed as u64).as_str()).concat("/").concat(
        dec(holding as u64).as_str(),
    ).concat(" node(s) holding work hold MORE THAN ONE organisation — ").concat(verdict);
    let ghost o = out@;
    out.push(last);
    assert(strs(out@) =~= strs(o).push(last@));
    out
}

// --------------------------------------------------------------- inventory --

/// One instance of a node.
pub open spec fn held_text(i: Tree) -> Seq<char> {
    named_or_unknown(i, "tenant"@) + "/"@ + named_or_unknown(i, "app"@) + " x"@ + dec_of(
        match i.field("count"@) {
            Some(Tree::Unsigned(n)) => n as nat,
            _ => 0nat,
        },
    )
}

/// The processors of a node.
pub open spec fn cpus_in(v: Tree) -> u64 {
    match v.field("capacity"@) {
        Some(c) => match c.field("cpus"@) {
            Some(Tree::Unsigned(n)) => n,
            _ => 0,
        },
        None => 0,
    }
}

/// One node and what it holds.
pub open spec fn node_line(v: Tree) -> Seq<char> {
    let held = instances_in(v).map_values(|i: Tree| held_text(i));
    "    "@ + pad_end_of(named_or_unknown(v, "node"@), 10) + " ("@ + pad_start_of(
        dec_of(cpus_in(v) as nat),
        2,
    ) + " cpu) "@ + (if held.len() == 0 {
        "-"@
    } else {
        join_of(held, ", "@)
    })
}

/// One node and what it holds.
pub fn inventory(v: &Json) -> (out: String)
    ensures
        out@ == node_line(v@),
{
    let ghost want = instances_in(v@).map_values(|i: Tree| held_text(i));
    let mut held: Vec<String> = Vec::new();
    assert(strs(held@) =~= want.take(0));
    match instances(v) {
        Some(l) => {
            let mut i: usize = 0;
            while i < l.len()
                invariant
                    i <= l.len(),
                    instances_in(v@) == trees(l@),
                    want == instances_in(v@).map_values(|i: Tree| held_text(i)),
                    strs(held@) == want.take(i as int),
                decreases l.len() - i,
            {
                let n = dec(count_of(&l[i]));
                let t = named(&l[i], "tenant").concat("/").concat(
                    named(&l[i], "app").as_str(),
                ).concat(" x").concat(n.as_str());
                let ghost o = held@;
                held.push(t);
                assert(strs(held@) =~= strs(o).push(t@));
                assert(instances_in(v@)[i as int] == l@[i as int]@);
                assert(want[i as int] == t@);
                assert(want.take(i + 1) =~= want.take(i as int).push(want[i as int]));
                i = i + 1;
            }
            assert(want.take(i as int) =~= want);
        },
        None => {
            assert(want.take(0) =~= want);
        },
    }
    let cpus: u64 = match v.field("capacity") {
        Some(c) => match c.field("cpus") {
            Some(n) => match n.number() {
                Some(k) => k,
                None => 0,
            },
            None => 0,
        },
        None => 0,
    };
    let node = named(v, "node");
    let count = dec(cpus);
    let list = if held.len() == 0 {
        "-".to_string()
    } else {
        join(&held, ", ")
    };
    "    ".to_string().concat(pad_end(node.as_str(), 10).as_str()).concat(" (").concat(
        pad_start(count.as_str(), 2).as_str(),
    ).concat(" cpu) ").concat(list.as_str())
}

/// The lines of the nodes as they come, before they are put in order.
pub open spec fn node_lines(vs: Seq<Tree>) -> Seq<Seq<char>> {
    vs.map_values(|v: Tree| node_line(v))
}

/// The replicas that some inventory entries stand for.
pub open spec fn held(vs: Seq<Tree>) -> nat
    decreases vs.len(),
{
    if vs.len() == 0 {
        0
    } else {
        held(vs.drop_last()) + count_instances(instances_in(vs.last()))
    }
}

proof fn lemma_held_grows(vs: Seq<Tree>, i: int)
    requires
        0 <= i <= vs.len(),
    ensures
        held(vs.take(i)) <= held(vs),
    decreases vs.len(),
{
    if i < vs.len() {
        lemma_held_grows(vs.drop_last(), i);
        assert(vs.drop_last().take(i) =~= vs.take(i));
    } else {
        assert(vs.take(i) =~= vs);
    }
}

/// The lines are those of the nodes in order, and the total of their replicas.
pub open spec fn fleet_lines(vs: Seq<Tree>, out: Seq<Seq<char>>) -> bool {
    let rows = node_lines(vs);
    exists|p: Seq<usize>| #[trigger]
        ranks_texts(p, rows) && out == p.map_values(|i: usize| rows[i as int]).push(
            "    total "@ + dec_of(held(vs)) + " replica(s)"@,
        )
}

/// The fleet as the reconciler sees it: its nodes in order, and how many replicas they
/// hold, where that number fits.
pub fn fleet(vs: &Vec<Json>) -> (r: Option<Vec<String>>)
    ensures
        r is Some <==> held(trees(vs@)) <= u64::MAX,
        r matches Some(out) ==> fleet_lines(trees(vs@), strs(out@)),
{
    let ghost ts = trees(vs@);
    let ghost rows_want = node_lines(ts);
    let mut total: u64 = 0;
    let mut rows: Vec<String> = Vec::new();
    let mut i: usize = 0;
    assert(ts.take(0) =~= Seq::empty());
    assert(strs(rows@) =~= rows_want.take(0));
    while i < vs.len()
        invariant
            i <= vs.len(),
            ts == trees(vs@),
            rows_want == node_lines(ts),
            total == held(ts.take(i as int)),
            strs(rows@) == rows_want.take(i as int),
        decreases vs.len() - i,
    {
        assert(ts.take(i + 1).drop_last() =~= ts.take(i as int));
        assert(ts.take(i + 1).last() == vs@[i as int]@);
        proof {
            lemma_held_grows(ts, i + 1);
        }
        let n = match instances(&vs[i]) {
            Some(l) => sum_instances(l),
            None => {
                assert(instances_in(vs@[i as int]@) =~= Seq::empty());
                Some(0)
            },
        };
        match n {
            None => {
                return None;
            },
            Some(c) => {
                if c > u64::MAX - total {
                    return None;
                }
                total = total + c;
            },
        }
        let line = inventory(&vs[i]);
        let ghost o = rows@;
        rows.push(line);
        assert(strs(rows@) =~= strs(o).push(line@));
        assert(rows_want.take(i + 1) =~= rows_want.take(i as int).push(rows_want[i as int]));
        i = i + 1;
    }
    assert(ts.take(i as int) =~= ts);
    assert(rows_want.take(i as int) =~= rows_want);
    let p = stable_order_texts(&rows);
    let ghost want = p@.map_values(|k: usize| rows_want[k as int]);
    let mut out: Vec<String> = Vec::new();
    let mut k: usize = 0;
    assert(strs(out@) =~= want.take(0));
    while k < p.len()
        invariant
            k <= p.len(),
            rows_want == strs(rows@),
            ranks_texts(p@, rows_want),
            want == p@.map_values(|k: usize| rows_want[k as int]),
            strs(out@) == want.take(k as int),
        decreases p.len() - k,
    {
        let t = rows[p[k]].clone();
        let ghost o = out@;
        out.push(t);
        assert(strs(out@) =~= strs(o).push(t@));
        assert(want.take(k + 1) =~= want.take(k as int).push(want[k as int]));
        k = k + 1;
    }
    assert(want.take(k as int) =~= want);
    let last = "    total ".to_string().concat(dec(total).as_str()).concat(" replica(s)");
    let ghost o = out@;
    out.push(last);
    assert(strs(out@) =~= strs(o).push(last@));
    assert(ranks_texts(p@, node_lines(ts)));
    Some(out)
}

// --------------------------------------------------------------------- laws --

/// Which answers count as good, and which errors as cut off: an answer by its first digit, an
/// error by its word for the deadline. One more count adds itself where it is kept.
pub proof fn law_what_is_counted(cs: Seq<(Seq<char>, u64)>, c: (Seq<char>, u64), keep: spec_fn(Seq<char>) -> bool)
    ensures
        is_2xx()(c.0) <==> "2"@.is_prefix_of(c.0),
        not_2xx()(c.0) <==> !"2"@.is_prefix_of(c.0),
        in_flight()(c.0) <==> holds(c.0, "deadline"@),
        any_name()(c.0),
        keep(c.0) ==> sum_where(cs.push(c), keep) == sum_where(cs, keep) + c.1,
        !keep(c.0) ==> sum_where(cs.push(c), keep) == sum_where(cs, keep),
        sum_where(Seq::empty(), keep) == 0,
{
    assert(cs.push(c).drop_last() =~= cs);
}

/// A start is read in the order in which a host tells it: the whole, then fetching, building
/// and linking; and it is warm where the build came from the cache.
pub proof fn law_a_start_is_read_in_its_order(line: Seq<char>)
    ensures
        start_in(line) is Some ==> ({
            let rest = second_field(line, " in "@)->0;
            let (total, tail) = parted(rest, " us ("@)->0;
            let s = start_in(line)->Some_0.0;
            &&& fits(trim_of(total)) == Some(s.total)
            &&& numbers_in(tail).len() >= 3
            &&& s.fetch == numbers_in(tail)[0]
            &&& s.build == numbers_in(tail)[1]
            &&& s.link == numbers_in(tail)[2]
            &&& start_in(line)->Some_0.1 <==> holds(tail, "cache-load"@)
        }),
{
}

/// Every start of a log is taken once: among the cold ones or among the warm ones.
pub proof fn law_a_start_is_cold_or_warm(ls: Seq<Seq<char>>, line: Seq<char>)
    ensures
        start_in(line) is None ==> starts_of(ls.push(line), true) == starts_of(ls, true)
            && starts_of(ls.push(line), false) == starts_of(ls, false),
        start_in(line) is Some && start_in(line)->Some_0.1 ==> starts_of(ls.push(line), true)
            == starts_of(ls, true).push(start_in(line)->Some_0.0) && starts_of(ls.push(line), false)
            == starts_of(ls, false),
        start_in(line) is Some && !start_in(line)->Some_0.1 ==> starts_of(ls.push(line), false)
            == starts_of(ls, false).push(start_in(line)->Some_0.0) && starts_of(ls.push(line), true)
            == starts_of(ls, true),
{
    assert(ls.push(line).drop_last() =~= ls);
}

/// Replicas are counted over every instance by its own count; one without a count adds nothing.
pub proof fn law_each_instance_adds_its_count(items: Seq<Tree>, i: Tree)
    ensures
        i.field("count"@) matches Some(Tree::Unsigned(n)) ==> count_instances(items.push(i))
            == count_instances(items) + n,
        !(i.field("count"@) matches Some(Tree::Unsigned(_))) ==> count_instances(items.push(i))
            == count_instances(items),
{
    assert(items.push(i).drop_last() =~= items);
}

/// The replicas of a dump are those of all its lines.
pub proof fn law_each_line_adds_its_replicas(ls: Seq<Seq<char>>, line: Seq<char>)
    ensures
        replicas_of(ls.push(line)) == replicas_of(ls) + replicas_in(line),
        trim_of(line).len() == 0 ==> replicas_in(line) == 0,
        trim_of(line).len() > 0 && json_in(trim_of(line)) is Some ==> replicas_in(line)
            == count_instances(instances_in(json_in(trim_of(line))->0)),
{
    assert(ls.push(line).drop_last() =~= ls);
}

/// A worker pauses so long that all of them together keep to the rate.
pub proof fn law_workers_keep_to_the_rate(workers: u64, rate: u64)
    requires
        rate > 0,
        1000000000 * workers <= u64::MAX,
    ensures
        pause_of(workers, rate) * rate <= 1000000000 * workers,
        1000000000 * workers < (pause_of(workers, rate) + 1) * rate,
{
    let (w, r) = (1000000000 * workers as int, rate as int);
    let q = w / r;
    assert(q * r <= w < (q + 1) * r) by (nonlinear_arith)
        requires
            r > 0,
            w >= 0,
            q == w / r,
    ;
}

/// A second is shown where something failed in it, where something happened in it, at the start
/// and at the end; a mark is the last that was made at its second.
pub proof fn law_which_second_is_shown(i: int, bad: u64, marked: bool, secs: u64)
    ensures
        second_shown(i, bad, marked, secs) <==> bad != 0 || marked || i == secs || i <= 1,
{
}

/// What is told of a second is its mark, and the last where there are several.
pub proof fn law_the_last_mark_of_a_second_is_told(ms: Seq<Mark>, m: Mark, at: int)
    ensures
        m.at == at ==> mark_at(ms.push(m), at) == Some(m.what@),
        m.at != at ==> mark_at(ms.push(m), at) == mark_at(ms, at),
        mark_at(Seq::empty(), at) is None,
{
    assert(ms.push(m).drop_last() =~= ms);
}

/// The errors of a window reach from the first second in which something failed to the last;
/// there are none exactly where nothing failed.
pub proof fn law_where_the_errors_of_a_window_are(buckets: Seq<(u64, u64)>, i: int, end: int)
    requires
        0 <= i <= end <= buckets.len(),
    ensures
        first_bad(buckets, i, end) is None <==> forall|k: int|
            i <= k < end ==> (#[trigger] buckets[k]).1 == 0,
        last_bad(buckets, i, end) is None <==> forall|k: int|
            i <= k < end ==> (#[trigger] buckets[k]).1 == 0,
        first_bad(buckets, i, end) matches Some(f) ==> i <= f < end && buckets[f].1 > 0 && forall|
            k: int,
        |
            i <= k < f ==> (#[trigger] buckets[k]).1 == 0,
        last_bad(buckets, i, end) matches Some(l) ==> i <= l < end && buckets[l].1 > 0 && forall|
            k: int,
        |
            l < k < end ==> (#[trigger] buckets[k]).1 == 0,
    decreases end - i,
{
    if i < end {
        lemma_first_bad(buckets, i, end);
        lemma_last_bad(buckets, i, end);
    }
}

proof fn lemma_first_bad(buckets: Seq<(u64, u64)>, i: int, end: int)
    requires
        0 <= i <= end <= buckets.len(),
    ensures
        first_bad(buckets, i, end) is None <==> forall|k: int|
            i <= k < end ==> (#[trigger] buckets[k]).1 == 0,
        first_bad(buckets, i, end) matches Some(f) ==> i <= f < end && buckets[f].1 > 0 && forall|
            k: int,
        |
            i <= k < f ==> (#[trigger] buckets[k]).1 == 0,
    decreases end - i,
{
    if i < end && buckets[i].1 == 0 {
        lemma_first_bad(buckets, i + 1, end);
    }
}

proof fn lemma_last_bad(buckets: Seq<(u64, u64)>, i: int, end: int)
    requires
        0 <= i <= end <= buckets.len(),
    ensures
        last_bad(buckets, i, end) is None <==> forall|k: int|
            i <= k < end ==> (#[trigger] buckets[k]).1 == 0,
        last_bad(buckets, i, end) matches Some(l) ==> i <= l < end && buckets[l].1 > 0 && forall|
            k: int,
        |
            l < k < end ==> (#[trigger] buckets[k]).1 == 0,
    decreases end - i,
{
    if i < end && buckets[end - 1].1 == 0 {
        lemma_last_bad(buckets, i, end - 1);
    }
}

/// The answers of a run are those of all its seconds: the good to the good, the bad to the bad.
pub proof fn law_each_second_adds_its_answers(buckets: Seq<(u64, u64)>, b: (u64, u64))
    ensures
        answered(buckets.push(b)).0 == answered(buckets).0 + b.0,
        answered(buckets.push(b)).1 == answered(buckets).1 + b.1,
        answered(Seq::empty()) == (0nat, 0nat),
{
    assert(buckets.push(b).drop_last() =~= buckets);
}

/// A dip is the first sample of the window that is below what was wanted; a recovery is the
/// first after it that is not.
pub proof fn law_a_dip_is_the_first_sample_below(
    rows: Seq<(u64, u64)>,
    at: u64,
    end: u64,
    want: u64,
    i: int,
)
    requires
        0 <= i <= rows.len(),
    ensures
        dip_from(rows, at, end, want, i) matches Some(k) ==> i <= k < rows.len() && at <= rows[k].0
            < end && rows[k].1 < want && forall|j: int|
            i <= j < k ==> !(at <= (#[trigger] rows[j]).0 < end && rows[j].1 < want),
        dip_from(rows, at, end, want, i) is None <==> forall|j: int|
            i <= j < rows.len() ==> !(at <= (#[trigger] rows[j]).0 < end && rows[j].1 < want),
    decreases rows.len() - i,
{
    if i < rows.len() && !(within(rows[i], at, end) && rows[i].1 < want) {
        law_a_dip_is_the_first_sample_below(rows, at, end, want, i + 1);
    }
}

/// The low water is the least sample of the window, and nothing outside of it has a say.
pub proof fn law_the_low_water_is_the_least_of_the_window(
    rows: Seq<(u64, u64)>,
    at: u64,
    end: u64,
    most: u64,
    k: int,
)
    requires
        0 <= k < rows.len(),
    ensures
        low_water(rows, at, end, most) <= most,
        at <= rows[k].0 < end ==> low_water(rows, at, end, most) <= rows[k].1,
        low_water(rows, at, end, most) < most ==> exists|j: int|
            0 <= j < rows.len() && at <= (#[trigger] rows[j]).0 < end && rows[j].1 == low_water(
                rows,
                at,
                end,
                most,
            ),
    decreases rows.len(),
{
    let p = rows.drop_last();
    let n = rows.len() - 1;
    if p.len() > 0 {
        law_the_low_water_is_the_least_of_the_window(
            p,
            at,
            end,
            most,
            if k < n {
                k
            } else {
                0
            },
        );
    }
    let before = low_water(p, at, end, most);
    if low_water(rows, at, end, most) < most {
        if within(rows.last(), at, end) && rows.last().1 < before {
            assert(rows[n].1 == low_water(rows, at, end, most));
        } else {
            let j = choose|j: int|
                0 <= j < p.len() && at <= (#[trigger] p[j]).0 < end && p[j].1 == before;
            assert(rows[j] == p[j]);
        }
    }
}

/// Nodes are counted as holding work where they hold some, and as mixed where they hold work of
/// more than one organisation.
pub proof fn law_which_node_is_mixed(by: Seq<(Seq<char>, Vec<String>)>, e: (Seq<char>, Vec<String>))
    ensures
        mixing(by.push(e)).0 == mixing(by).0 + (if e.1@.len() >= 1 {
            1nat
        } else {
            0nat
        }),
        mixing(by.push(e)).1 == mixing(by).1 + (if e.1@.len() >= 2 {
            1nat
        } else {
            0nat
        }),
        mixing(by).1 <= mixing(by).0 <= by.len(),
    decreases by.len(),
{
    assert(by.push(e).drop_last() =~= by);
    if by.len() > 0 {
        law_which_node_is_mixed(by.drop_last(), by.last());
        assert(by.drop_last().push(by.last()) =~= by);
    }
}

/// A node's processors are those that its capacity names, and a replica is told by its tenant,
/// its app and its count.
pub proof fn law_what_is_told_of_a_node(v: Tree)
    ensures
        v.field("capacity"@) is Some && (v.field("capacity"@)->0.field("cpus"@) matches Some(
            Tree::Unsigned(_),
        )) ==> v.field("capacity"@)->0.field("cpus"@) == Some(Tree::Unsigned(cpus_in(v))),
        v.field("capacity"@) is None ==> cpus_in(v) == 0,
        v.text_field("tenant"@) is Some && v.text_field("app"@) is Some && (v.field("count"@) matches Some(
            Tree::Unsigned(_),
        )) ==> held_text(v) == v.text_field("tenant"@)->0 + "/"@ + v.text_field("app"@)->0 + " x"@
            + dec_of(v.field("count"@)->0->Unsigned_0 as nat),
{
}

/// An event is moved by the start of the run, and one that was before it is at the start.
pub proof fn law_an_event_is_told_from_the_start(es: Seq<(u64, Seq<char>)>, e: (u64, Seq<char>), wall: u64)
    ensures
        marks_of(es.push(e), wall).len() > 0,
        marks_of(es.push(e), wall).last().1 == e.1,
        e.0 >= wall ==> marks_of(es.push(e), wall).last().0 == e.0 - wall,
        e.0 < wall ==> marks_of(es.push(e), wall).last().0 == 0,
{
    assert(es.push(e).drop_last() =~= es);
}

/// A second is told with what was answered in it and what failed, in that order.
pub proof fn law_a_second_is_told_by_its_answers(i: int, ok: u64, bad: u64)
    ensures
        holds(second_line(i, ok, bad, None), "    "@ + pad_start_of(dec_of(i as nat), 4) + " "@ + pad_start_of(dec_of(ok as nat), 5) + " "@ + pad_start_of(dec_of(bad as nat), 6)),
{
    let c0 = "    "@;
    let c1 = pad_start_of(dec_of(i as nat), 4);
    let c2 = " "@;
    let c3 = pad_start_of(dec_of(ok as nat), 5);
    let c4 = " "@;
    let c5 = pad_start_of(dec_of(bad as nat), 6);
    let c6 = Seq::<char>::empty();
    let s0 = c0;
    let s1 = s0 + c1;
    let s2 = s1 + c2;
    let s3 = s2 + c3;
    let s4 = s3 + c4;
    let s5 = s4 + c5;
    let s6 = s5 + c6;
    lemma_holds_itself(s5);
    lemma_holds_longer(s5, s5, c6);
}

/// The verdict tells how many nodes hold work of more than one organisation, of how many that
/// hold any.
pub proof fn law_the_verdict_tells_the_mixed_of_the_holding(holding: nat, mixed: nat)
    ensures
        holds(tenants_verdict(holding, mixed), "\n  "@ + dec_of(mixed) + "/"@ + dec_of(holding) + " node(s) holding work hold MORE THAN ONE organisation — "@ + (if mixed > 0 {
        "tenants are not mapped to machines"@
    } else {
        "WARNING: every node holds a single org"@
    })),
{
    let c0 = "\n  "@;
    let c1 = dec_of(mixed);
    let c2 = "/"@;
    let c3 = dec_of(holding);
    let c4 = " node(s) holding work hold MORE THAN ONE organisation — "@;
    let c5 = (if mixed > 0 {
        "tenants are not mapped to machines"@
    } else {
        "WARNING: every node holds a single org"@
    });
    let s0 = c0;
    let s1 = s0 + c1;
    let s2 = s1 + c2;
    let s3 = s2 + c3;
    let s4 = s3 + c4;
    let s5 = s4 + c5;
    lemma_holds_itself(s5);
}

/// Counts are read only where every entry is one, and then each under its own name.
pub proof fn law_counts_are_read_under_their_names(es: Seq<(Seq<char>, Tree)>, i: int)
    requires
        0 <= i < es.len(),
    ensures
        (forall|k: int| 0 <= k < es.len() ==> (#[trigger] es[k]).1 is Unsigned) ==> counts_in(
            Some(Tree::Object(es)),
        ).len() == es.len() && counts_in(Some(Tree::Object(es)))[i].0 == es[i].0 && Tree::Unsigned(
            counts_in(Some(Tree::Object(es)))[i].1,
        ) == es[i].1,
        !(es[i].1 is Unsigned) ==> counts_in(Some(Tree::Object(es))).len() == 0,
        counts_in(None).len() == 0,
{
}

/// A window is told from the event to its last error: the first second in which something
/// failed, the last, and how long it took; or that nothing failed.
pub proof fn law_what_is_told_of_a_window(buckets: Seq<(u64, u64)>, at: int, what: Seq<char>, end: int)
    requires
        0 <= at <= end <= buckets.len(),
    ensures
        (forall|k: int| at <= k < end ==> (#[trigger] buckets[k]).1 == 0) ==> window_line(
            buckets,
            at,
            what,
            end,
        ) == "    after "@ + debug_of(what) + ": no failed request at all"@,
        forall|f: int, l: int|
            at <= f <= l < end && (#[trigger] buckets[f]).1 > 0 && (#[trigger] buckets[l]).1 > 0 && (
            forall|k: int| at <= k < f ==> (#[trigger] buckets[k]).1 == 0) && (forall|k: int|
                l < k < end ==> (#[trigger] buckets[k]).1 == 0) ==> window_line(
                buckets,
                at,
                what,
                end,
            ) == "    after "@ + debug_of(what) + ": errors in seconds "@ + dec_of(f as nat) + ".."@
                + dec_of(l as nat) + " ("@ + dec_of((l - at + 1) as nat)
                + "s from the event to the last error)"@,
{
    law_where_the_errors_of_a_window_are(buckets, at, end);
}

/// Each event has a window of its own, which ends where the next begins.
pub proof fn law_a_window_ends_where_the_next_begins(buckets: Seq<(u64, u64)>, ms: Seq<Mark>, secs: u64, i: int)
    requires
        0 <= i < ms.len(),
    ensures
        windows_of(buckets, ms, secs).len() == ms.len(),
        i + 1 < ms.len() ==> windows_of(buckets, ms, secs)[i] == window_line(
            buckets,
            ms[i].at as int,
            ms[i].what@,
            ms[i + 1].at as int,
        ),
        i + 1 == ms.len() ==> windows_of(buckets, ms, secs)[i] == window_line(
            buckets,
            ms[i].at as int,
            ms[i].what@,
            secs as int,
        ),
{
}

/// A sample is a moment and a count, in that order; a line that is none is passed over.
pub proof fn law_a_sample_is_a_moment_and_a_count(ls: Seq<Seq<char>>, line: Seq<char>)
    ensures
        sample_in(line) matches Some(s) ==> split_once_of(trim_of(line), ' ') is Some && fits(
            split_once_of(trim_of(line), ' ')->Some_0.0,
        ) == Some(s.0) && fits(trim_of(split_once_of(trim_of(line), ' ')->Some_0.1)) == Some(s.1),
        sample_in(line) is Some ==> samples_of(ls.push(line)) == samples_of(ls).push(
            sample_in(line)->0,
        ),
        sample_in(line) is None ==> samples_of(ls.push(line)) == samples_of(ls),
{
    assert(ls.push(line).drop_last() =~= ls);
}

/// What is told of a convergence: that the count never fell, or how long after the event it was
/// noticed, and how long after it was back, where it was.
pub proof fn law_what_is_told_of_a_convergence(rows: Seq<(u64, u64)>, at: u64, what: Seq<char>, end: u64, want: u64)
    ensures
        dip_from(rows, at, end, want, 0) is None ==> event_text(rows, at, what, end, want) == "    "@
            + what + ": never observed below "@ + dec_of(want as nat),
        dip_from(rows, at, end, want, 0) is Some ==> {
            let d = rows[dip_from(rows, at, end, want, 0)->0].0;
            let head = "    "@ + what + ": noticed "@ + dec_of((d - at) as nat)
                + "s after, low water "@ + dec_of(low_water(rows, at, end, u64::MAX) as nat) + "/"@
                + dec_of(want as nat);
            let back = back_from(rows, at, end, want, d, 0);
            &&& back is None ==> event_text(rows, at, what, end, want) == head
                + ", NOT restored before the run ended"@
            &&& back is Some ==> event_text(rows, at, what, end, want) == head + ", back to "@
                + dec_of(want as nat) + " "@ + dec_of((rows[back->0].0 - at) as nat) + "s after ("@
                + dec_of((rows[back->0].0 - d) as nat) + "s to re-place)"@
        },
        rows.len() == 0 ==> convergence(rows, Seq::empty(), want) == seq!["    no samples"@],
{
}

/// Each tenant of a node is named, in order; and a node with more than one is marked.
pub proof fn law_a_mixed_node_is_marked(node: Seq<char>, orgs: Seq<Seq<char>>)
    ensures
        orgs.len() > 1 ==> "  <- both orgs"@.is_suffix_of(tenants_line(node, orgs)),
        orgs.len() == 0 ==> tenants_line(node, orgs) == "    "@ + pad_end_of(node, 10) + " "@ + "-"@
            + ""@,
        orgs.len() == 1 ==> tenants_line(node, orgs) == "    "@ + pad_end_of(node, 10) + " "@
            + join_of(orgs, " + "@) + ""@,
{
    if orgs.len() > 1 {
        let t = tenants_line(node, orgs);
        let end = "  <- both orgs"@;
        assert(t.subrange(t.len() - end.len(), t.len() as int) =~= end);
    }
}

/// A node holds what all its snapshots hold, and nothing of another node's.
pub proof fn law_a_node_holds_what_its_snapshots_say(vs: Seq<Tree>, v: Tree, node: Seq<char>)
    ensures
        named_or_unknown(v, "node"@) == node ==> held_by(vs.push(v), node) == held_by(vs, node)
            + tenants_among(instances_in(v)),
        named_or_unknown(v, "node"@) != node ==> held_by(vs.push(v), node) == held_by(vs, node),
        held(vs.push(v)) == held(vs) + count_instances(instances_in(v)),
        v.text_field("node"@) is Some ==> named_or_unknown(v, "node"@) == v.text_field("node"@)->0,
        v.text_field("node"@) is None ==> named_or_unknown(v, "node"@) == "?"@,
{
    assert(vs.push(v).drop_last() =~= vs);
    assert(held_by(vs, node) + Seq::<Seq<char>>::empty() =~= held_by(vs, node));
}

/// The tenants of a node are those that its instances name.
pub proof fn law_the_tenants_are_those_of_the_instances(items: Seq<Tree>, i: Tree)
    ensures
        i.text_field("tenant"@) is Some ==> tenants_among(items.push(i)) == tenants_among(items).push(
            i.text_field("tenant"@)->0,
        ),
        i.text_field("tenant"@) is None ==> tenants_among(items.push(i)) == tenants_among(items),
        forall|v: Tree|
            (#[trigger] v.field("instances"@)) matches Some(Tree::List(l)) ==> instances_in(v) == l,
{
    assert(items.push(i).drop_last() =~= items);
}

/// The seconds of a run are told in their order, each that is shown with its own answers.
pub proof fn law_the_seconds_are_told_in_order(buckets: Seq<(u64, u64)>, ms: Seq<Mark>, secs: u64, n: int)
    requires
        0 <= n < buckets.len(),
    ensures
        buckets[n].1 > 0 || mark_at(ms, n) is Some || n < 2 || n == secs ==> second_lines(
            buckets,
            ms,
            secs,
            n + 1,
        ) == second_lines(buckets, ms, secs, n).push(
            second_line(n, buckets[n].0, buckets[n].1, mark_at(ms, n)),
        ),
        !(buckets[n].1 > 0 || mark_at(ms, n) is Some || n < 2 || n == secs) ==> second_lines(
            buckets,
            ms,
            secs,
            n + 1,
        ) == second_lines(buckets, ms, secs, n),
{
}

/// A node is told by its name, how many processors it has and what it holds.
pub proof fn law_a_node_is_told_with_its_processors(v: Tree)
    ensures
        holds(node_line(v), "    "@ + pad_end_of(named_or_unknown(v, "node"@), 10) + " ("@ + pad_start_of(dec_of(cpus_in(v) as nat), 2) + " cpu) "@),
{
    let c0 = "    "@;
    let c1 = pad_end_of(named_or_unknown(v, "node"@), 10);
    let c2 = " ("@;
    let c3 = pad_start_of(dec_of(cpus_in(v) as nat), 2);
    let c4 = " cpu) "@;
    let c5 = (if instances_in(v).len() == 0 {
        "-"@
    } else {
        join_of(instances_in(v).map_values(|i: Tree| held_text(i)), ", "@)
    });
    let s0 = c0;
    let s1 = s0 + c1;
    let s2 = s1 + c2;
    let s3 = s2 + c3;
    let s4 = s3 + c4;
    let s5 = s4 + c5;
    lemma_holds_itself(s4);
    lemma_holds_longer(s4, s4, c5);
}

/// An event of a run is seen by its second and what it was.
pub proof fn law_an_event_is_seen_whole(ms: Seq<Mark>, i: int)
    requires
        0 <= i < ms.len(),
    ensures
        mark_views(ms).len() == ms.len(),
        mark_views(ms)[i].0 == ms[i].at,
        mark_views(ms)[i].1 == ms[i].what@,
{
}

/// Events are told in the order of their time, those of one second in the order of their words.
pub proof fn law_events_are_told_in_time(p: Seq<usize>, es: Seq<(u64, Seq<char>)>, a: int, b: int)
    requires
        in_time(p, es),
        0 <= a < b < p.len(),
    ensures
        p.len() == es.len(),
        p[a] != p[b],
        es[p[a] as int].0 <= es[p[b] as int].0,
        es[p[a] as int].0 == es[p[b] as int].0 ==> !before(es[p[b] as int].1, es[p[a] as int].1),
{
    assert(!before(es[p[b] as int].1, es[p[a] as int].1) || es[p[a] as int].0 < es[p[b] as int].0);
}

/// What was gathered of the tenants: every node that reports, and no other, each with its tenants
/// in order and once.
pub proof fn law_what_was_gathered_of_the_tenants(m: Map<Seq<char>, Vec<String>>, vs: Seq<Tree>, i: int, t: Seq<char>)
    requires
        gathered(m, vs),
        0 <= i < vs.len(),
    ensures
        ({
            let node = named_or_unknown(vs[i], "node"@);
            &&& m.contains_key(node)
            &&& strs(m[node]@).contains(t) <==> held_by(vs, node).contains(t)
        }),
        forall|n: Seq<char>| #[trigger]
            m.contains_key(n) ==> exists|k: int|
                0 <= k < vs.len() && named_or_unknown(#[trigger] vs[k], "node"@) == n,
{
    let node = named_or_unknown(vs[i], "node"@);
    assert(reports(vs, node));
    assert(m.contains_key(node));
    assert(sorted_set_of(strs(m[node]@), held_by(vs, node)));
}

/// The nodes are told one by one, each in a line, with what is mixed at the end.
pub proof fn law_each_node_has_its_line(by: Seq<(Seq<char>, Vec<String>)>, vs: Seq<Tree>, i: int)
    ensures
        tenants_text(by).len() == by.len() + 1,
        0 <= i < by.len() ==> tenants_text(by)[i] == tenants_line(by[i].0, strs(by[i].1@)),
        node_lines(vs).len() == vs.len(),
        0 <= i < vs.len() ==> node_lines(vs)[i] == node_line(vs[i]),
{
}

/// An event replaces the one before it where both fall into one second, and is added to all the
/// others where they do not.
pub proof fn law_the_last_event_of_a_second_counts(es: Seq<(u64, Seq<char>)>, e: (u64, Seq<char>), wall: u64, i: int)
    ensures
        ({
            let m = marks_of(es, wall);
            let now = marks_of(es.push(e), wall);
            let at = if e.0 < wall {
                0int
            } else {
                e.0 - wall
            };
            &&& m.len() == 0 || m.last().0 != at ==> now.len() == m.len() + 1
            &&& m.len() > 0 && m.last().0 == at ==> now.len() == m.len()
            &&& 0 <= i < now.len() - 1 ==> now[i] == m[i]
        }),
{
    assert(es.push(e).drop_last() =~= es);
}

} // verus!

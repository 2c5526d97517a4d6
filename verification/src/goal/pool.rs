//! What a run asks of the knowledge pool and what it gives back. A pool that cannot answer
//! never stops the work.

use vstd::prelude::*;
use vstd::string::*;

use crate::goal::context::Capability;
use crate::goal::flow::Recalled;
use crate::goal::spec::PartSpec;
use crate::number::{dec, dec_of};
use crate::text::{chars_of, copy_texts, holds, lemma_assoc, lemma_holds_end, lemma_holds_itself, lemma_holds_longer, pad_end, pad_end_of, same, slice_text, strs};

verus! {

// ------------------------------------------------------------------ asking --

/// Is a goal worth running? Only a record that it was done says no: to do work again costs
/// money, and to skip work that was never done is a wrong answer.
pub fn worth_running(asked: Recalled) -> (r: bool)
    ensures
        r == (asked != Recalled::AlreadyDone),
{
    match asked {
        Recalled::AlreadyDone => false,
        _ => true,
    }
}

/// What is said of a goal before it is run: with the account of it where it was done before,
/// and with the reason where the pool could not be asked.
pub open spec fn recall_of(asked: Recalled, why: Seq<char>) -> Option<Seq<char>> {
    match asked {
        Recalled::NoPool => None,
        Recalled::AlreadyDone => Some("\nALREADY DONE — "@ + why),
        Recalled::NothingOnRecord => Some("nothing on record for this goal; running it"@),
        Recalled::Unreachable => Some(
            "could not ask the knowledge pool ("@ + why + ") — doing the work"@,
        ),
    }
}

/// What is said of a goal before it is run.
pub fn recall_line(asked: Recalled, why: &str) -> (r: Option<String>)
    ensures
        (match r {
            Some(t) => Some(t@),
            None => None,
        }) == recall_of(asked, why@),
{
    match asked {
        Recalled::NoPool => None,
        Recalled::AlreadyDone => Some("\nALREADY DONE — ".to_string().concat(why)),
        Recalled::NothingOnRecord => Some(
            "nothing on record for this goal; running it".to_string(),
        ),
        Recalled::Unreachable => Some(
            "could not ask the knowledge pool (".to_string().concat(why).concat(
                ") — doing the work",
            ),
        ),
    }
}

// --------------------------------------------------------------- searching --

/// How many of some closures a component is in, counted once for each place.
pub open spec fn uses(closures: Seq<Vec<String>>, name: Seq<char>) -> nat
    decreases closures.len(),
{
    if closures.len() == 0 {
        0
    } else {
        uses(closures.drop_last(), name) + times(strs(closures.last()@), name)
    }
}

/// How often a text is among some.
pub open spec fn times(v: Seq<Seq<char>>, t: Seq<char>) -> nat
    decreases v.len(),
{
    if v.len() == 0 {
        0
    } else {
        times(v.drop_last(), t) + if v.last() == t {
            1nat
        } else {
            0nat
        }
    }
}

proof fn lemma_uses_grow(closures: Seq<Vec<String>>, name: Seq<char>, i: int)
    requires
        0 <= i <= closures.len(),
    ensures
        uses(closures.take(i), name) <= uses(closures, name),
    decreases closures.len(),
{
    if i < closures.len() {
        lemma_uses_grow(closures.drop_last(), name, i);
        assert(closures.drop_last().take(i) =~= closures.take(i));
    } else {
        assert(closures.take(i) =~= closures);
    }
}

fn count(v: &Vec<String>, t: &str) -> (n: usize)
    ensures
        n == times(strs(v@), t@),
{
    let ghost all = strs(v@);
    let mut n: usize = 0;
    let mut i: usize = 0;
    assert(all.take(0) =~= Seq::empty());
    while i < v.len()
        invariant
            i <= v.len(),
            n <= i,
            all == strs(v@),
            n == times(all.take(i as int), t@),
        decreases v.len() - i,
    {
        assert(all.take(i + 1).drop_last() =~= all.take(i as int));
        assert(all.take(i + 1).last() == v@[i as int]@);
        if same(v[i].as_str(), t) {
            n = n + 1;
        }
        i = i + 1;
    }
    assert(all.take(i as int) =~= all);
    n
}

/// How many applications carry a component: in how many of the components' closures it
/// is, where that number fits.
pub fn apps_of(closures: &Vec<Vec<String>>, name: &str) -> (r: Option<u64>)
    ensures
        r is Some <==> uses(closures@, name@) <= u64::MAX,
        r matches Some(n) ==> n == uses(closures@, name@),
{
    let mut n: u64 = 0;
    let mut i: usize = 0;
    assert(closures@.take(0) =~= Seq::empty());
    while i < closures.len()
        invariant
            i <= closures.len(),
            n == uses(closures@.take(i as int), name@),
        decreases closures.len() - i,
    {
        assert(closures@.take(i + 1).drop_last() =~= closures@.take(i as int));
        assert(closures@.take(i + 1).last() == closures@[i as int]);
        proof {
            lemma_uses_grow(closures@, name@, i + 1);
        }
        let k = count(&closures[i], name) as u64;
        if k > u64::MAX - n {
            return None;
        }
        n = n + k;
        i = i + 1;
    }
    assert(closures@.take(i as int) =~= closures@);
    Some(n)
}

/// The first characters of a text, as many as `n`.
pub open spec fn first_chars(s: Seq<char>, n: int) -> Seq<char> {
    if s.len() <= n {
        s
    } else {
        s.take(n)
    }
}

fn cut(s: &str, n: usize) -> (out: String)
    ensures
        out@ == first_chars(s@, n as int),
{
    let cs = chars_of(s);
    let k = if cs.len() <= n {
        cs.len()
    } else {
        n
    };
    let out = slice_text(&cs, 0, k);
    assert(out@ =~= first_chars(s@, n as int));
    out
}

/// One capability among those that a search found.
pub open spec fn hit_of(c: Capability) -> Seq<char> {
    "  "@ + pad_end_of(c.name@, 22) + " "@ + dec_of(c.apps as nat) + " app(s)  "@ + first_chars(
        c.description@,
        88,
    )
}

/// What is said of a search: that the pool has nothing, or what it has, the best five.
pub open spec fn search_lines(hits: Seq<Capability>) -> Seq<Seq<char>> {
    if hits.len() == 0 {
        seq![
            "capability search: nothing in the pool answers this goal — if the work generalises, it is a candidate for promotion (ADR-0089)\n"@,
        ]
    } else {
        seq![
            "capability search: "@ + dec_of(hits.len())
                + " candidate(s) the pool already has:"@,
        ] + Seq::new(
            if hits.len() < 5 {
                hits.len()
            } else {
                5
            },
            |i: int| hit_of(hits[i]),
        ) + seq![""@]
    }
}

/// Capabilities as plain values.
pub open spec fn capability_view(c: Capability) -> (Seq<char>, u64, Seq<Seq<char>>, Seq<char>) {
    (c.name@, c.apps, strs(c.exports@), c.description@)
}

/// Capabilities as plain values.
pub open spec fn capability_views(cs: Seq<Capability>) -> Seq<
    (Seq<char>, u64, Seq<Seq<char>>, Seq<char>),
> {
    cs.map_values(|c: Capability| capability_view(c))
}

/// What is said of a search, and the capabilities that every branch is told of: the best
/// five.
pub fn search_the_pool(hits: &Vec<Capability>) -> (r: (Vec<String>, Vec<Capability>))
    ensures
        strs(r.0@) == search_lines(hits@),
        capability_views(r.1@) == capability_views(hits@).take(
            if hits@.len() < 5 {
                hits@.len() as int
            } else {
                5
            },
        ),
{
    let mut lines: Vec<String> = Vec::new();
    let mut kept: Vec<Capability> = Vec::new();
    if hits.len() == 0 {
        lines.push(
            "capability search: nothing in the pool answers this goal — if the work generalises, it is a candidate for promotion (ADR-0089)\n".to_string(),
        );
        assert(strs(lines@) =~= search_lines(hits@));
        assert(capability_views(kept@) =~= capability_views(hits@).take(0));
        return (lines, kept);
    }
    let n: usize = if hits.len() < 5 {
        hits.len()
    } else {
        5
    };
    lines.push(
        "capability search: ".to_string().concat(dec(hits.len() as u64).as_str()).concat(
            " candidate(s) the pool already has:",
        ),
    );
    let ghost want = search_lines(hits@);
    let ghost cs = capability_views(hits@);
    let mut i: usize = 0;
    assert(strs(lines@) =~= want.take(1));
    assert(capability_views(kept@) =~= cs.take(0));
    while i < n
        invariant
            i <= n <= hits.len(),
            hits@.len() > 0,
            n == if hits@.len() < 5 {
                hits@.len() as int
            } else {
                5
            },
            want == search_lines(hits@),
            cs == capability_views(hits@),
            strs(lines@) == want.take(i + 1),
            capability_views(kept@) == cs.take(i as int),
        decreases n - i,
    {
        let c = &hits[i];
        let line = "  ".to_string().concat(pad_end(c.name.as_str(), 22).as_str()).concat(
            " ",
        ).concat(dec(c.apps).as_str()).concat(" app(s)  ").concat(
            cut(c.description.as_str(), 88).as_str(),
        );
        let ghost o = lines@;
        lines.push(line);
        assert(strs(lines@) =~= strs(o).push(line@));
        assert(want[i + 1] == line@);
        assert(want.take(i + 2) =~= want.take(i + 1).push(want[i + 1]));
        let copy = Capability {
            name: c.name.clone(),
            apps: c.apps,
            exports: copy_texts(&c.exports),
            description: c.description.clone(),
        };
        let ghost k = kept@;
        kept.push(copy);
        assert(capability_views(kept@) =~= capability_views(k).push(capability_view(copy)));
        assert(cs.take(i + 1) =~= cs.take(i as int).push(cs[i as int]));
        i = i + 1;
    }
    let ghost o = lines@;
    lines.push("".to_string());
    assert(strs(lines@) =~= strs(o).push(""@));
    assert(want.last() == ""@);
    assert(want =~= want.take(n + 1).push(""@));
    (lines, kept)
}

// ---------------------------------------------------------------- promoting --

/// What a winner taught the pool.
pub enum Taught<'a> {
    /// A lesson was promoted, under this name.
    Promoted(&'a str, &'a str),
    /// A lesson was not taken, and why.
    NotTaken(&'a str),
    /// Nothing transferable, and it said so.
    Nothing,
    /// The model that distils could not be reached, and why.
    Unreachable(&'a str),
}

/// What is said of what a winner taught.
pub open spec fn taught_of(t: Taught) -> Seq<char> {
    match t {
        Taught::Promoted(name, lesson) => "\npromoted to patterns: "@ + name@ + "\n  "@ + lesson@,
        Taught::NotTaken(e) => "\n(nothing promoted: "@ + e@ + ")"@,
        Taught::Nothing => "\nthe winner taught nothing transferable, and said so"@,
        Taught::Unreachable(e) => "\n(the distiller could not be reached: "@ + e@ + ")"@,
    }
}

/// What is said of what a winner taught.
pub fn taught_line(t: Taught) -> (out: String)
    ensures
        out@ == taught_of(t),
{
    match t {
        Taught::Promoted(name, lesson) => "\npromoted to patterns: ".to_string().concat(
            name,
        ).concat("\n  ").concat(lesson),
        Taught::NotTaken(e) => "\n(nothing promoted: ".to_string().concat(e).concat(")"),
        Taught::Nothing => "\nthe winner taught nothing transferable, and said so".to_string(),
        Taught::Unreachable(e) => "\n(the distiller could not be reached: ".to_string().concat(
            e,
        ).concat(")"),
    }
}

/// What is said of what a part's winner taught.
pub open spec fn part_taught_of(part: Seq<char>, t: Taught) -> Seq<char> {
    match t {
        Taught::Promoted(name, lesson) => "  promoted "@ + part + ": "@ + name@ + "\n    "@
            + lesson@,
        Taught::NotTaken(e) => "  "@ + part + " promoted nothing: "@ + e@,
        Taught::Nothing => "  "@ + part + " taught nothing transferable, and said so"@,
        Taught::Unreachable(e) => "  "@ + part + " — the distiller could not be reached: "@ + e@,
    }
}

/// What is said of what a part's winner taught.
pub fn part_taught_line(part: &str, t: Taught) -> (out: String)
    ensures
        out@ == part_taught_of(part@, t),
{
    match t {
        Taught::Promoted(name, lesson) => "  promoted ".to_string().concat(part).concat(
            ": ",
        ).concat(name).concat("\n    ").concat(lesson),
        Taught::NotTaken(e) => "  ".to_string().concat(part).concat(
            " promoted nothing: ",
        ).concat(e),
        Taught::Nothing => "  ".to_string().concat(part).concat(
            " taught nothing transferable, and said so",
        ),
        Taught::Unreachable(e) => "  ".to_string().concat(part).concat(
            " — the distiller could not be reached: ",
        ).concat(e),
    }
}

/// What a run does about the pool at its end: ask what its winner taught, and sweep what
/// nothing read. Without a pool it does neither; only what passed is asked; and the sweep
/// comes last, so that nothing goes that this run was about to read.
pub fn promote_and_sweep(pool: bool, best_accepted: Option<bool>, forget_after_days: u64) -> (r: (
    bool,
    bool,
))
    ensures
        r.0 == (pool && best_accepted == Some(true)),
        r.1 == (pool && forget_after_days > 0),
{
    let passed = match best_accepted {
        Some(a) => a,
        None => false,
    };
    (pool && passed, pool && forget_after_days > 0)
}

/// What is said of a sweep that forgot something.
pub open spec fn forgot_of(n: u64, days: u64) -> Option<Seq<char>> {
    if n == 0 {
        None
    } else {
        Some(
            "knowledge: forgot "@ + dec_of(n as nat) + " entr"@ + (if n == 1 {
                "y"@
            } else {
                "ies"@
            }) + " nothing had read in "@ + dec_of(days as nat) + " days"@,
        )
    }
}

/// What is said of a sweep that forgot something.
pub fn forgot_line(n: u64, days: u64) -> (r: Option<String>)
    ensures
        (match r {
            Some(t) => Some(t@),
            None => None,
        }) == forgot_of(n, days),
{
    if n == 0 {
        None
    } else {
        let end = if n == 1 {
            "y"
        } else {
            "ies"
        };
        Some(
            "knowledge: forgot ".to_string().concat(dec(n).as_str()).concat(" entr").concat(
                end,
            ).concat(" nothing had read in ").concat(dec(days).as_str()).concat(" days"),
        )
    }
}

/// What became of a part: its name, and whether its best branch passed, where it has one.
#[derive(Debug, PartialEq, Eq)]
pub struct PartEnded {
    pub part: String,
    pub best_accepted: Option<bool>,
}

/// The part of this name, looked for from `i` on.
pub open spec fn part_named(parts: Seq<PartSpec>, name: Seq<char>, i: int) -> Option<int>
    decreases parts.len() - i,
{
    if i < 0 || i >= parts.len() {
        None
    } else if parts[i].name@ == name {
        Some(i)
    } else {
        part_named(parts, name, i + 1)
    }
}

/// The outcomes that are promoted, each with the part whose text its lesson goes under:
/// those that passed, and that a part of the goal has the name of.
pub open spec fn promoted_of(ended: Seq<PartEnded>, parts: Seq<PartSpec>) -> Seq<(int, int)>
    decreases ended.len(),
{
    if ended.len() == 0 {
        Seq::empty()
    } else {
        let earlier = promoted_of(ended.drop_last(), parts);
        if ended.last().best_accepted == Some(true) {
            match part_named(parts, ended.last().part@, 0) {
                Some(j) => earlier.push((ended.len() - 1, j)),
                None => earlier,
            }
        } else {
            earlier
        }
    }
}

/// Pairs of places as plain numbers.
pub open spec fn places(v: Seq<(usize, usize)>) -> Seq<(int, int)> {
    v.map_values(|p: (usize, usize)| (p.0 as int, p.1 as int))
}

fn find_part(parts: &Vec<PartSpec>, name: &str) -> (r: Option<usize>)
    ensures
        (match r {
            Some(i) => Some(i as int),
            None => None,
        }) == part_named(parts@, name@, 0),
{
    let mut i: usize = 0;
    while i < parts.len()
        invariant
            i <= parts.len(),
            part_named(parts@, name@, i as int) == part_named(parts@, name@, 0),
        decreases parts.len() - i,
    {
        if same(parts[i].name.as_str(), name) {
            return Some(i);
        }
        i = i + 1;
    }
    None
}

/// The outcomes that are promoted, each with the part whose text its lesson goes under: a
/// lesson under the whole goal's text would be lost to the next run of the part.
pub fn promote_parts(ended: &Vec<PartEnded>, parts: &Vec<PartSpec>) -> (out: Vec<(usize, usize)>)
    ensures
        places(out@) == promoted_of(ended@, parts@),
{
    let mut out: Vec<(usize, usize)> = Vec::new();
    let mut i: usize = 0;
    assert(ended@.take(0) =~= Seq::empty());
    assert(places(out@) =~= promoted_of(ended@.take(0), parts@));
    while i < ended.len()
        invariant
            i <= ended.len(),
            places(out@) == promoted_of(ended@.take(i as int), parts@),
        decreases ended.len() - i,
    {
        assert(ended@.take(i + 1).drop_last() =~= ended@.take(i as int));
        assert(ended@.take(i + 1).last() == ended@[i as int]);
        let passed = match ended[i].best_accepted {
            Some(a) => a,
            None => false,
        };
        if passed {
            match find_part(parts, ended[i].part.as_str()) {
                Some(j) => {
                    let ghost o = out@;
                    out.push((i, j));
                    assert(places(out@) =~= places(o).push((i as int, j as int)));
                },
                None => {},
            }
        }
        i = i + 1;
    }
    assert(ended@.take(i as int) =~= ended@);
    out
}

/// Only what passed its checks is promoted.
pub proof fn law_only_what_passed_is_promoted(ended: Seq<PartEnded>, parts: Seq<PartSpec>, k: int)
    requires
        0 <= k < promoted_of(ended, parts).len(),
    ensures
        ({
            let (i, j) = promoted_of(ended, parts)[k];
            &&& 0 <= i < ended.len()
            &&& 0 <= j < parts.len()
            &&& ended[i].best_accepted == Some(true)
            &&& ended[i].part@ == parts[j].name@
        }),
    decreases ended.len(),
{
    if ended.len() > 0 {
        let earlier = promoted_of(ended.drop_last(), parts);
        if k < earlier.len() {
            law_only_what_passed_is_promoted(ended.drop_last(), parts, k);
        } else {
            lemma_named(parts, ended.last().part@, 0);
        }
    }
}

proof fn lemma_named(parts: Seq<PartSpec>, name: Seq<char>, i: int)
    requires
        0 <= i,
    ensures
        part_named(parts, name, i) matches Some(j) ==> 0 <= j < parts.len() && parts[j].name@
            == name,
    decreases parts.len() - i,
{
    if i < parts.len() && parts[i].name@ != name {
        lemma_named(parts, name, i + 1);
    }
}

// ------------------------------------------------------------------ seeding --

/// What is said of a projection that the store took in: it answers each statement, so a
/// good status alone says nothing.
pub open spec fn seeded_of(generation: u64, rejected: nat) -> Seq<char> {
    if rejected == 0 {
        "capability graph seeded into the pool at generation "@ + dec_of(generation as nat)
    } else {
        "capability graph partly seeded: "@ + dec_of(rejected) + " statement(s) rejected"@
    }
}

/// What is said of a projection that the store took in.
pub fn seeded(generation: u64, rejected: usize) -> (out: String)
    ensures
        out@ == seeded_of(generation, rejected as nat),
{
    if rejected == 0 {
        "capability graph seeded into the pool at generation ".to_string().concat(
            dec(generation).as_str(),
        )
    } else {
        "capability graph partly seeded: ".to_string().concat(dec(rejected as u64).as_str()).concat(
            " statement(s) rejected",
        )
    }
}

// --------------------------------------------------------------------- laws --

/// Every part that passed and that the goal names is promoted, under its own number; and a
/// part that did not pass never is.
pub proof fn law_every_part_that_passed_is_promoted(
    ended: Seq<PartEnded>,
    parts: Seq<PartSpec>,
    i: int,
)
    requires
        0 <= i < ended.len(),
        ended[i].best_accepted == Some(true),
        exists|j: int| 0 <= j < parts.len() && (#[trigger] parts[j]).name@ == ended[i].part@,
    ensures
        exists|k: int|
            0 <= k < promoted_of(ended, parts).len() && (#[trigger] promoted_of(ended, parts)[k]).0
                == i,
    decreases ended.len(),
{
    let earlier = promoted_of(ended.drop_last(), parts);
    if i < ended.len() - 1 {
        law_every_part_that_passed_is_promoted(ended.drop_last(), parts, i);
        let k = choose|k: int| 0 <= k < earlier.len() && (#[trigger] earlier[k]).0 == i;
        assert(promoted_of(ended, parts)[k] == earlier[k]);
    } else {
        lemma_part_named(parts, ended[i].part@, 0);
        assert(promoted_of(ended, parts)[earlier.len() as int].0 == i);
    }
}

proof fn lemma_part_named(parts: Seq<PartSpec>, name: Seq<char>, from: int)
    requires
        0 <= from <= parts.len(),
    ensures
        part_named(parts, name, from) is None <==> forall|j: int|
            from <= j < parts.len() ==> (#[trigger] parts[j]).name@ != name,
    decreases parts.len() - from,
{
    if from < parts.len() && parts[from].name@ != name {
        lemma_part_named(parts, name, from + 1);
    }
}

/// How often a component is used is counted over all applications: one more application adds
/// as often as it lists the component.
pub proof fn law_uses_are_counted_over_all(a: Seq<Vec<String>>, b: Seq<Vec<String>>, name: Seq<char>)
    ensures
        uses(a + b, name) == uses(a, name) + uses(b, name),
    decreases b.len(),
{
    if b.len() == 0 {
        assert(a + b =~= a);
    } else {
        assert((a + b).drop_last() =~= a + b.drop_last());
        law_uses_are_counted_over_all(a, b.drop_last(), name);
    }
}

/// A text that stands in a list counts at least once, and one that does not counts nothing.
pub proof fn law_counted_where_listed(v: Seq<Seq<char>>, t: Seq<char>)
    ensures
        times(v, t) > 0 <==> v.contains(t),
        times(v, t) <= v.len(),
    decreases v.len(),
{
    if v.len() > 0 {
        law_counted_where_listed(v.drop_last(), t);
        if v.drop_last().contains(t) {
            let i = choose|i: int| 0 <= i < v.drop_last().len() && v.drop_last()[i] == t;
            assert(v[i] == t);
        }
        if v.contains(t) && v.last() != t {
            let i = choose|i: int| 0 <= i < v.len() && v[i] == t;
            assert(v.drop_last()[i] == t);
        }
        assert(v[v.len() - 1] == v.last());
    }
}

/// A search shows the first five that were found, each in its place, between a heading and a
/// blank line.
pub proof fn law_a_search_shows_the_first_five(hits: Seq<Capability>, i: int)
    requires
        0 <= i < hits.len(),
        i < 5,
    ensures
        search_lines(hits)[1 + i] == hit_of(hits[i]),
        search_lines(hits).len() == 2 + (if hits.len() < 5 {
            hits.len() as int
        } else {
            5
        }),
{
}

/// Where there is no pool nothing is said of it, and where something was forgotten it is said
/// how much.
pub proof fn law_silence_where_there_is_nothing_to_say(asked: Recalled, why: Seq<char>, n: u64, days: u64)
    ensures
        recall_of(asked, why) is None <==> asked == Recalled::NoPool,
        asked == Recalled::AlreadyDone ==> recall_of(asked, why) == Some("\nALREADY DONE — "@ + why),
        asked == Recalled::Unreachable ==> recall_of(asked, why) == Some(
            "could not ask the knowledge pool ("@ + why + ") — doing the work"@,
        ),
        forgot_of(n, days) is None <==> n == 0,
{
}

/// What a winner taught is told: what was promoted and the lesson, why nothing was, that there
/// was nothing, or that nobody could be asked.
pub proof fn law_what_was_taught_is_told(t: Taught, part: Seq<char>)
    ensures
        (t matches Taught::Promoted(name, lesson) ==> taught_of(t) == "\npromoted to patterns: "@
            + name@ + "\n  "@ + lesson@ && part_taught_of(part, t) == "  promoted "@ + part + ": "@
            + name@ + "\n    "@ + lesson@),
        (t matches Taught::NotTaken(e) ==> taught_of(t) == "\n(nothing promoted: "@ + e@ + ")"@
            && part_taught_of(part, t) == "  "@ + part + " promoted nothing: "@ + e@),
        (t matches Taught::Unreachable(e) ==> taught_of(t)
            == "\n(the distiller could not be reached: "@ + e@ + ")"@),
{
}

/// The graph is told as seeded only where no statement was rejected.
pub proof fn law_a_graph_is_seeded_where_nothing_was_rejected(generation: u64, rejected: nat)
    ensures
        rejected == 0 ==> seeded_of(generation, rejected)
            == "capability graph seeded into the pool at generation "@ + dec_of(generation as nat),
        rejected > 0 ==> seeded_of(generation, rejected) == "capability graph partly seeded: "@
            + dec_of(rejected) + " statement(s) rejected"@,
{
}

/// A capability that was found is told by its name, how many apps carry it and what it says.
pub proof fn law_a_found_capability_is_told(c: Capability)
    ensures
        holds(hit_of(c), "  "@ + pad_end_of(c.name@, 22) + " "@),
        holds(hit_of(c), dec_of(c.apps as nat) + " app(s)  "@ + first_chars(c.description@, 88)),
{
    let c0 = "  "@;
    let c1 = pad_end_of(c.name@, 22);
    let c2 = " "@;
    let c3 = dec_of(c.apps as nat);
    let c4 = " app(s)  "@;
    let c5 = first_chars(c.description@, 88);
    let s0 = c0;
    let s1 = s0 + c1;
    let s2 = s1 + c2;
    let s3 = s2 + c3;
    let s4 = s3 + c4;
    let s5 = s4 + c5;
    lemma_holds_itself(s2);
    lemma_holds_longer(s2, s2, c3);
    lemma_holds_longer(s3, s2, c4);
    lemma_holds_longer(s4, s2, c5);
    lemma_assoc(s2, c3, c4);
    lemma_assoc(s2, c3 + c4, c5);
    lemma_holds_end(s2, c3 + c4 + c5);
}

/// A capability is seen by its name, how many applications have it, what it exports and what it
/// says of itself.
pub proof fn law_a_capability_is_seen_whole(cs: Seq<Capability>, i: int)
    requires
        0 <= i < cs.len(),
    ensures
        capability_views(cs).len() == cs.len(),
        capability_views(cs)[i].0 == cs[i].name@,
        capability_views(cs)[i].1 == cs[i].apps,
        capability_views(cs)[i].2 == strs(cs[i].exports@),
        capability_views(cs)[i].3 == cs[i].description@,
{
}

/// A sweep tells how many entries it forgot, and then for how many days nothing had read them;
/// one that forgot none says nothing.
pub proof fn law_a_sweep_tells_what_it_forgot(n: u64, days: u64)
    ensures
        forgot_of(n, days) is None <==> n == 0,
        forgot_of(n, days) matches Some(t) ==> ("knowledge: forgot "@ + dec_of(n as nat)
            + " entr"@).is_prefix_of(t) && (" nothing had read in "@ + dec_of(days as nat)
            + " days"@).is_suffix_of(t),
        n == 1 ==> (forgot_of(n, days) matches Some(t) && ("knowledge: forgot "@ + dec_of(n as nat)
            + " entr"@ + "y"@).is_prefix_of(t)),
        n > 1 ==> (forgot_of(n, days) matches Some(t) && ("knowledge: forgot "@ + dec_of(n as nat)
            + " entr"@ + "ies"@).is_prefix_of(t)),
{
    if let Some(t) = forgot_of(n, days) {
        let head = "knowledge: forgot "@ + dec_of(n as nat) + " entr"@;
        let end = " nothing had read in "@ + dec_of(days as nat) + " days"@;
        let word = if n == 1 {
            head + "y"@
        } else {
            head + "ies"@
        };
        assert(t.subrange(0, head.len() as int) =~= head);
        assert(t.subrange(0, word.len() as int) =~= word);
        assert(t.subrange(t.len() - end.len(), t.len() as int) =~= end);
    }
}

} // verus!

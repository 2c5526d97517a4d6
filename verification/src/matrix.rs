//! The matrix of fleets that are measured: what each cell is fed, and what its memory
//! curve says.

use vstd::prelude::*;
use vstd::string::*;

use crate::number::{dec, dec_of};
use crate::text::{contains, debug, debug_of, holds, join, join_of, lemma_assoc, lemma_holds_end, lemma_holds_itself, lemma_holds_longer, lines, lines_of, pad_end, pad_end_of, pad_start, pad_start_of, same, strs};

verus! {

// --------------------------------------------------------------- the inputs --

/// A number in LEB128: seven bits a byte, the low ones first, and the high bit of every
/// byte but the last.
pub open spec fn leb128_of(v: nat) -> Seq<u8>
    decreases v,
{
    if v < 128 {
        seq![v as u8]
    } else {
        seq![(v % 128 + 128) as u8] + leb128_of(v / 128)
    }
}

/// Append a number in LEB128.
pub fn leb128(v: u64, out: &mut Vec<u8>)
    ensures
        final(out)@ == old(out)@ + leb128_of(v as nat),
{
    let ghost before = out@;
    let mut v: u64 = v;
    let ghost whole = leb128_of(v as nat);
    assert(out@ + leb128_of(v as nat) =~= before + whole);
    while v >= 128
        invariant
            out@ + leb128_of(v as nat) == before + whole,
        decreases v,
    {
        let b: u8 = (v % 128 + 128) as u8;
        let ghost o = out@;
        out.push(b);
        assert(leb128_of(v as nat) =~= seq![b] + leb128_of((v / 128) as nat));
        assert(out@ + leb128_of((v / 128) as nat) =~= o + leb128_of(v as nat));
        v = v / 128;
    }
    let ghost o = out@;
    out.push(v as u8);
    assert(out@ =~= o + leb128_of(v as nat));
}

/// What a LEB128 number reads as, from `i` on, and where it ends.
pub open spec fn read_leb128(b: Seq<u8>, i: int) -> Option<(nat, int)>
    decreases b.len() - i,
{
    if i < 0 || i >= b.len() {
        None
    } else if b[i] < 128 {
        Some((b[i] as nat, i + 1))
    } else {
        match read_leb128(b, i + 1) {
            Some((v, end)) => Some(((b[i] - 128) as nat + 128 * v, end)),
            None => None,
        }
    }
}

/// A number in LEB128 reads back as itself, whatever follows it.
pub proof fn law_leb128_reads_back(head: Seq<u8>, v: nat, tail: Seq<u8>)
    ensures
        read_leb128(head + leb128_of(v) + tail, head.len() as int) == Some(
            (v, (head.len() + leb128_of(v).len()) as int),
        ),
    decreases v,
{
    let b = head + leb128_of(v) + tail;
    assert(b[head.len() as int] == leb128_of(v)[0]);
    if v >= 128 {
        let first = (v % 128 + 128) as u8;
        law_leb128_reads_back(head.push(first), v / 128, tail);
        assert(head.push(first) + leb128_of(v / 128) + tail =~= b);
    }
}

/// A section of a component that every runtime ignores: it changes the digest and
/// nothing else.
pub open spec fn section_of(name: Seq<u8>) -> Seq<u8> {
    let body = leb128_of(name.len()) + name;
    seq![0u8] + leb128_of(body.len()) + body
}

fn add_bytes(out: &mut Vec<u8>, more: &[u8])
    ensures
        final(out)@ == old(out)@ + more@,
{
    let ghost o = out@;
    let mut i: usize = 0;
    while i < more.len()
        invariant
            i <= more@.len(),
            out@ =~= o + more@.take(i as int),
        decreases more@.len() - i,
    {
        assert(more@.take(i + 1) =~= more@.take(i as int).push(more@[i as int]));
        out.push(more[i]);
        i = i + 1;
    }
    assert(more@.take(i as int) =~= more@);
}

/// A section that every runtime ignores.
pub fn custom_section(name: &str) -> (out: Vec<u8>)
    ensures
        out@ == section_of(vstd::utf8::encode_utf8(name@)),
{
    let bytes = name.as_bytes();
    let ghost n = vstd::utf8::encode_utf8(name@);
    let mut body: Vec<u8> = Vec::new();
    leb128(bytes.len() as u64, &mut body);
    add_bytes(&mut body, bytes);
    assert(body@ =~= leb128_of(n.len()) + n);
    let mut out: Vec<u8> = Vec::new();
    out.push(0);
    leb128(body.len() as u64, &mut out);
    add_bytes(&mut out, body.as_slice());
    assert(out@ =~= section_of(n));
    out
}

/// Two sections with different names make different bytes behind the same component.
pub proof fn law_a_name_makes_a_digest(wasm: Seq<u8>, a: Seq<u8>, b: Seq<u8>)
    requires
        a != b,
    ensures
        wasm + section_of(a) != wasm + section_of(b),
{
    if wasm + section_of(a) == wasm + section_of(b) {
        let (x, y) = (wasm + section_of(a), wasm + section_of(b));
        assert(x.skip(wasm.len() as int) =~= section_of(a));
        assert(y.skip(wasm.len() as int) =~= section_of(b));
        let (p, q) = (leb128_of(a.len()) + a, leb128_of(b.len()) + b);
        let s = section_of(a);
        law_leb128_reads_back(seq![0u8], p.len(), p);
        law_leb128_reads_back(seq![0u8], q.len(), q);
        assert(seq![0u8] + leb128_of(p.len()) + p =~= s);
        assert(seq![0u8] + leb128_of(q.len()) + q =~= s);
        let at = (1 + leb128_of(p.len()).len()) as int;
        assert(s.skip(at) =~= p);
        assert(s.skip(at) =~= q);
        law_leb128_reads_back(Seq::empty(), a.len(), a);
        law_leb128_reads_back(Seq::empty(), b.len(), b);
        assert(Seq::<u8>::empty() + leb128_of(a.len()) + a =~= p);
        assert(Seq::<u8>::empty() + leb128_of(b.len()) + b =~= p);
        let end = leb128_of(a.len()).len() as int;
        assert(p.skip(end) =~= a);
        assert(p.skip(end) =~= b);
    }
}

/// The component of an application: its own where digests are distinct.
pub open spec fn component_of(i: nat, distinct: bool) -> Seq<char> {
    if distinct {
        "gate"@ + dec_of(i)
    } else {
        "gate"@
    }
}

/// The component of an application.
pub fn component(i: u64, distinct: bool) -> (out: String)
    ensures
        out@ == component_of(i as nat, distinct),
{
    if distinct {
        "gate".to_string().concat(dec(i).as_str())
    } else {
        "gate".to_string()
    }
}

/// The spec of an application.
pub open spec fn spec_of(i: nat, component: Seq<char>) -> Seq<char> {
    "version: comp/v1\napp: app"@ + dec_of(i) + "\ntenant: t"@ + dec_of(i)
        + "\nstrategy: fused\ncomponents:\n  - id: "@ + component + "\ningress:\n  host: app"@
        + dec_of(i) + ".matrix.test\n  component: "@ + component + "\n"@
}

/// The spec of an application.
pub fn app_spec(i: u64, component: &str) -> (out: String)
    ensures
        out@ == spec_of(i as nat, component@),
{
    let n = dec(i);
    "version: comp/v1\napp: app".to_string().concat(n.as_str()).concat("\ntenant: t").concat(
        n.as_str(),
    ).concat("\nstrategy: fused\ncomponents:\n  - id: ").concat(component).concat(
        "\ningress:\n  host: app",
    ).concat(n.as_str()).concat(".matrix.test\n  component: ").concat(component).concat("\n")
}

/// The bytes of an application's artifact: the component, with a section of its own
/// where digests are distinct.
pub open spec fn artifact_of(wasm: Seq<u8>, i: nat, distinct: bool) -> Seq<u8> {
    if distinct {
        wasm + section_of(vstd::utf8::encode_utf8("comp-matrix-"@ + dec_of(i)))
    } else {
        wasm
    }
}

/// The bytes of an application's artifact, where it has one: where digests are the same
/// the first one's is everybody's.
pub fn write_inputs(wasm: &[u8], i: u64, distinct: bool) -> (r: Option<Vec<u8>>)
    ensures
        r is Some <==> distinct || i == 0,
        r matches Some(b) ==> b@ == artifact_of(wasm@, i as nat, distinct),
{
    if !distinct && i != 0 {
        return None;
    }
    let mut out: Vec<u8> = Vec::new();
    add_bytes(&mut out, wasm);
    assert(out@ =~= wasm@);
    if distinct {
        let name = "comp-matrix-".to_string().concat(dec(i).as_str());
        let section = custom_section(name.as_str());
        add_bytes(&mut out, section.as_slice());
    }
    Some(out)
}

// ---------------------------------------------------------------- the cells --

/// Whether applications share a digest, in the order in which both are measured.
pub fn modes(only: &Option<String>) -> (r: Result<Vec<bool>, String>)
    ensures
        match only {
            None => r matches Ok(v) && v@ == seq![false, true],
            Some(o) => if o@ == "same"@ {
                r matches Ok(v) && v@ == seq![false]
            } else if o@ == "distinct"@ {
                r matches Ok(v) && v@ == seq![true]
            } else {
                r matches Err(e) && e@ == "--only takes `same` or `distinct`, not "@ + debug_of(o@)
            },
        },
{
    match only {
        None => {
            let v: Vec<bool> = vec![false, true];
            assert(v@ =~= seq![false, true]);
            Ok(v)
        },
        Some(o) => if same(o.as_str(), "same") {
            let v: Vec<bool> = vec![false];
            assert(v@ =~= seq![false]);
            Ok(v)
        } else if same(o.as_str(), "distinct") {
            let v: Vec<bool> = vec![true];
            assert(v@ =~= seq![true]);
            Ok(v)
        } else {
            Err(
                "--only takes `same` or `distinct`, not ".to_string().concat(
                    debug(o.as_str()).as_str(),
                ),
            )
        },
    }
}

/// The name of a mode.
pub open spec fn mode_name(distinct: bool) -> Seq<char> {
    if distinct {
        "distinct"@
    } else {
        "same"@
    }
}

/// The lattice of a cell: no two cells share one.
pub fn lattice(apps: u64, distinct: bool, pool: bool) -> (out: String)
    ensures
        out@ == "mx"@ + dec_of(apps as nat) + mode_name(distinct) + if pool {
            "1"@
        } else {
            "0"@
        },
{
    "mx".to_string().concat(dec(apps).as_str()).concat(
        if distinct {
            "distinct"
        } else {
            "same"
        },
    ).concat(
        if pool {
            "1"
        } else {
            "0"
        },
    )
}

/// The host that an application answers at.
pub fn host(i: u64) -> (out: String)
    ensures
        out@ == "app"@ + dec_of(i as nat) + ".matrix.test"@,
{
    "app".to_string().concat(dec(i).as_str()).concat(".matrix.test")
}

/// Which way the load went.
pub open spec fn door_of(direct: bool) -> Seq<char> {
    if direct {
        "a host directly"@
    } else {
        "the ingress"@
    }
}

/// Which way the load went.
pub fn door(direct: bool) -> (out: &'static str)
    ensures
        out@ == door_of(direct),
{
    if direct {
        "a host directly"
    } else {
        "the ingress"
    }
}

/// How the load was offered. A closed loop's latency is arithmetic and no measurement,
/// so that is said.
pub open spec fn loop_of(rate: Option<u32>, direct: bool) -> Seq<char> {
    match rate {
        Some(r) => "OPEN loop at "@ + dec_of(r as nat) + " rps offered, through "@ + door_of(direct),
        None => "CLOSED loop (latency == conns/rps by Little's law), through "@ + door_of(direct),
    }
}

/// How the load was offered.
pub fn loop_text(rate: Option<u32>, direct: bool) -> (out: String)
    ensures
        out@ == loop_of(rate, direct),
{
    match rate {
        Some(r) => "OPEN loop at ".to_string().concat(dec(r as u64).as_str()).concat(
            " rps offered, through ",
        ).concat(door(direct)),
        None => "CLOSED loop (latency == conns/rps by Little's law), through ".to_string().concat(
            door(direct),
        ),
    }
}

// --------------------------------------------------------------- the memory --

/// What the growth of a process after it settled says: in KiB, over 5 MiB it grows and
/// over 1 MiB it is watched.
pub fn drift(kib: i64) -> (out: &'static str)
    ensures
        out@ == drift_of(kib),
{
    if kib > 5120 {
        "  <- GROWING"
    } else if kib > 1024 {
        "  <- watch"
    } else {
        ""
    }
}

/// What the shape of a memory curve says, from its growth over its two halves: growth in
/// the first half alone is an allocator that settles, even growth a leak.
pub open spec fn shape_of(first: int, second: int) -> Seq<char> {
    if second * 10 <= first * 4 {
        "flattening (allocator settling)"@
    } else if second * 10 >= first * 8 {
        "still climbing (a leak, not a warm-up)"@
    } else {
        "slowing, but not flat"@
    }
}

/// How a memory curve grew, in KiB, and what that says.
#[derive(Debug, Clone, Copy, PartialEq, Eq)]
pub struct Curve {
    pub first: i128,
    pub second: i128,
    pub shape: &'static str,
}

/// How memory grew up to the middle of a run, and from there to its end.
pub fn curve(trace: &Vec<(u64, i64)>) -> (c: Curve)
    requires
        trace@.len() > 0,
    ensures
        c.first == trace@[trace@.len() as int / 2].1 - trace@[0].1,
        c.second == trace@.last().1 - trace@[trace@.len() as int / 2].1,
        c.shape@ == shape_of(c.first as int, c.second as int),
{
    let middle = trace[trace.len() / 2].1 as i128;
    let first = middle - trace[0].1 as i128;
    let second = trace[trace.len() - 1].1 as i128 - middle;
    let shape = if second * 10 <= first * 4 {
        "flattening (allocator settling)"
    } else if second * 10 >= first * 8 {
        "still climbing (a leak, not a warm-up)"
    } else {
        "slowing, but not flat"
    };
    Curve { first, second, shape }
}

/// What is said before a run of some cells, each under load for so many seconds and 40 more
/// for starting and settling; nothing where the sum does not fit.
pub fn opening_line(cells: u64, seconds: u64) -> (r: Option<String>)
    ensures
        r is Some <==> seconds + 40 <= u64::MAX && cells * (seconds + 40) <= u64::MAX,
        r matches Some(t) ==> t@ == "comp-matrix: "@ + dec_of(cells as nat) + " cell(s), "@
            + dec_of(seconds as nat) + "s of load each — about "@ + dec_of(
            (cells * (seconds + 40) / 60) as nat,
        ) + " minutes\n"@,
{
    let each = match seconds.checked_add(40) {
        Some(n) => n,
        None => return None,
    };
    let all = match cells.checked_mul(each) {
        Some(n) => n,
        None => return None,
    };
    Some(
        "comp-matrix: ".to_string().concat(dec(cells).as_str()).concat(" cell(s), ").concat(
            dec(seconds).as_str(),
        ).concat("s of load each — about ").concat(dec(all / 60).as_str()).concat(" minutes\n"),
    )
}

/// The lines of a log that hold a word.
pub open spec fn lines_with(ls: Seq<Seq<char>>, word: Seq<char>) -> Seq<Seq<char>> {
    ls.filter(|l: Seq<char>| holds(l, word))
}

/// The lines of a log that hold a word: what the fleet was doing when something was
/// refused.
pub fn complaints(log: &str, word: &str) -> (out: Vec<String>)
    ensures
        strs(out@) == lines_with(lines_of(log@), word@),
{
    let ls = lines(log);
    let ghost all = strs(ls@);
    let ghost keep = |l: Seq<char>| holds(l, word@);
    let mut out: Vec<String> = Vec::new();
    let mut i: usize = 0;
    assert(strs(out@) =~= all.take(0).filter(keep)) by {
        reveal(Seq::filter);
    }
    while i < ls.len()
        invariant
            i <= ls.len(),
            all == strs(ls@),
            keep == (|l: Seq<char>| holds(l, word@)),
            strs(out@) == all.take(i as int).filter(keep),
        decreases ls.len() - i,
    {
        proof {
            assert(all.take(i + 1).drop_last() =~= all.take(i as int));
            assert(all.take(i + 1).last() == ls@[i as int]@);
            reveal(Seq::filter);
        }
        if contains(ls[i].as_str(), word) {
            let ghost o = out@;
            out.push(ls[i].clone());
            assert(strs(out@) =~= strs(o).push(ls@[i as int]@));
        }
        i = i + 1;
    }
    assert(all.take(i as int) =~= all);
    out
}

/// The first `n` of some lines, each behind a label.
pub open spec fn labelled(ls: Seq<Seq<char>>, label: Seq<char>, n: int) -> Seq<Seq<char>> {
    Seq::new(
        if ls.len() < n {
            ls.len()
        } else {
            n as nat
        },
        |i: int| label + ls[i],
    )
}

/// The lines of a log in which the reconciler stopped or could not place something.
pub open spec fn stops(ls: Seq<Seq<char>>) -> Seq<Seq<char>> {
    ls.filter(|l: Seq<char>| holds(l, "stop"@) || holds(l, "unschedulable"@))
}

/// What the fleet was doing when something was refused.
pub open spec fn diagnosis_of(host: Seq<char>, reconciler: Seq<char>) -> Seq<Seq<char>> {
    let beats = lines_with(lines_of(host), "heartbeat"@);
    seq![
        "    diagnosis: host heartbeat complaints="@ + dec_of(beats.len())
            + ", reconciler stop commands="@ + dec_of(
            lines_with(lines_of(reconciler), "stop"@).len(),
        ),
    ] + labelled(beats, "      host: "@, 3) + labelled(
        stops(lines_of(reconciler)),
        "      reconciler: "@,
        3,
    )
}

fn put_labelled(out: &mut Vec<String>, ls: &Vec<String>, label: &str)
    ensures
        strs(final(out)@) == strs(old(out)@) + labelled(strs(ls@), label@, 3),
{
    let ghost first = strs(out@);
    let ghost want = labelled(strs(ls@), label@, 3);
    let mut i: usize = 0;
    assert(first + want.take(0) =~= first);
    while i < ls.len() && i < 3
        invariant
            i <= ls.len(),
            i <= 3,
            want == labelled(strs(ls@), label@, 3),
            strs(out@) == first + want.take(i as int),
        decreases ls.len() - i,
    {
        let t = label.to_string().concat(ls[i].as_str());
        let ghost o = out@;
        out.push(t);
        assert(strs(out@) =~= strs(o).push(t@));
        assert(want[i as int] == t@);
        assert(first + want.take(i + 1) =~= (first + want.take(i as int)).push(t@));
        i = i + 1;
    }
    assert(want.take(i as int) =~= want);
}

fn stop_lines(log: &str) -> (out: Vec<String>)
    ensures
        strs(out@) == stops(lines_of(log@)),
{
    let ls = lines(log);
    let ghost all = strs(ls@);
    let ghost keep = |l: Seq<char>| holds(l, "stop"@) || holds(l, "unschedulable"@);
    let mut out: Vec<String> = Vec::new();
    let mut i: usize = 0;
    assert(strs(out@) =~= all.take(0).filter(keep)) by {
        reveal(Seq::filter);
    }
    while i < ls.len()
        invariant
            i <= ls.len(),
            all == strs(ls@),
            keep == (|l: Seq<char>| holds(l, "stop"@) || holds(l, "unschedulable"@)),
            strs(out@) == all.take(i as int).filter(keep),
        decreases ls.len() - i,
    {
        proof {
            assert(all.take(i + 1).drop_last() =~= all.take(i as int));
            assert(all.take(i + 1).last() == ls@[i as int]@);
            reveal(Seq::filter);
        }
        if contains(ls[i].as_str(), "stop") || contains(ls[i].as_str(), "unschedulable") {
            let ghost o = out@;
            out.push(ls[i].clone());
            assert(strs(out@) =~= strs(o).push(ls@[i as int]@));
        }
        i = i + 1;
    }
    assert(all.take(i as int) =~= all);
    out
}

/// What the fleet was doing when something was refused: a count alone cannot tell a
/// platform that declines load from one that lost track of a healthy node.
pub fn diagnosis(host: &str, reconciler: &str) -> (out: Vec<String>)
    ensures
        strs(out@) == diagnosis_of(host@, reconciler@),
{
    let beats = complaints(host, "heartbeat");
    let stopped = complaints(reconciler, "stop");
    assert(strs(beats@).len() == beats@.len() && strs(stopped@).len() == stopped@.len());
    let mut out: Vec<String> = Vec::new();
    out.push(
        "    diagnosis: host heartbeat complaints=".to_string().concat(
            dec(beats.len() as u64).as_str(),
        ).concat(", reconciler stop commands=").concat(dec(stopped.len() as u64).as_str()),
    );
    let ghost top = strs(out@);
    put_labelled(&mut out, &beats, "      host: ");
    let more = stop_lines(reconciler);
    put_labelled(&mut out, &more, "      reconciler: ");
    assert(strs(out@) =~= diagnosis_of(host@, reconciler@));
    out
}

/// Statuses and how often each came.
pub open spec fn status_texts(by: Seq<(String, u64)>) -> Seq<Seq<char>> {
    by.map_values(|e: (String, u64)| e.0@ + "x"@ + dec_of(e.1 as nat))
}

/// The line of a cell's answers that were no success.
pub fn refusals_line(apps: u64, by: &Vec<(String, u64)>) -> (out: String)
    ensures
        out@ == "\n  non-2xx at apps="@ + dec_of(apps as nat) + ": "@ + join_of(
            status_texts(by@),
            " "@,
        ),
{
    let ghost want = status_texts(by@);
    let mut items: Vec<String> = Vec::new();
    let mut i: usize = 0;
    assert(strs(items@) =~= want.take(0));
    while i < by.len()
        invariant
            i <= by.len(),
            want == status_texts(by@),
            strs(items@) == want.take(i as int),
        decreases by.len() - i,
    {
        let t = by[i].0.clone().concat("x").concat(dec(by[i].1).as_str());
        let ghost o = items@;
        items.push(t);
        assert(strs(items@) =~= strs(o).push(t@));
        assert(want.take(i + 1) =~= want.take(i as int).push(want[i as int]));
        i = i + 1;
    }
    assert(want.take(i as int) =~= want);
    "\n  non-2xx at apps=".to_string().concat(dec(apps).as_str()).concat(": ").concat(
        join(&items, " ").as_str(),
    )
}

/// The line of a cell's requests that never arrived.
pub fn failures_line(failed: u64, apps: u64, first_error: &str) -> (out: String)
    ensures
        out@ == "\n  "@ + dec_of(failed as nat) + " transport failures at apps="@ + dec_of(
            apps as nat,
        ) + ": "@ + first_error@,
{
    "\n  ".to_string().concat(dec(failed).as_str()).concat(" transport failures at apps=").concat(
        dec(apps).as_str(),
    ).concat(": ").concat(first_error)
}

/// A cell, as far as it is paired with another.
#[derive(Debug, Clone, Copy, PartialEq, Eq)]
pub struct Key {
    pub apps: u64,
    pub distinct: bool,
    pub pool: bool,
}

/// The first cell from `i` on that is like `k` but has distinct digests.
pub open spec fn partner_from(cells: Seq<Key>, k: Key, i: int) -> Option<int>
    decreases cells.len() - i,
{
    if i < 0 || i >= cells.len() {
        None
    } else if cells[i].distinct && cells[i].apps == k.apps && cells[i].pool == k.pool {
        Some(i)
    } else {
        partner_from(cells, k, i + 1)
    }
}

/// The cell that a cell with one digest is held against.
pub fn partner(cells: &Vec<Key>, k: &Key) -> (r: Option<usize>)
    ensures
        (match r {
            Some(i) => Some(i as int),
            None => None,
        }) == if k.distinct {
            None
        } else {
            partner_from(cells@, *k, 0)
        },
{
    if k.distinct {
        return None;
    }
    let mut i: usize = 0;
    while i < cells.len()
        invariant
            i <= cells.len(),
            !k.distinct,
            partner_from(cells@, *k, i as int) == partner_from(cells@, *k, 0),
        decreases cells.len() - i,
    {
        let c = cells[i];
        if c.distinct && c.apps == k.apps && c.pool == k.pool {
            return Some(i);
        }
        i = i + 1;
    }
    None
}

// --------------------------------------------------------------- the report --

/// What was measured in a cell. A figure that was worked out in fractions is given as it
/// is shown; `less` and `share` are what the cell saves against its partner.
#[derive(Debug, PartialEq, Eq)]
pub struct Cell {
    pub key: Key,
    pub idle: String,
    pub loaded: String,
    pub per_app: String,
    pub rps: String,
    pub p50: String,
    pub p99: String,
    pub p999: String,
    pub shed: u64,
    pub failed: u64,
    pub shared: u64,
    pub disk: u64,
    pub compiled: u64,
    pub drift_kib: i64,
    pub drift: String,
    pub statuses: Vec<(String, u64)>,
    pub first_refusal: Option<String>,
    pub window: Option<(String, String)>,
    pub first_error: Option<String>,
    pub less: String,
    pub share: String,
}

/// Whether instances are pooled, in a table.
pub open spec fn pool_text(pool: bool) -> Seq<char> {
    if pool {
        "on"@
    } else {
        "off"@
    }
}

fn pool_name(pool: bool) -> (out: &'static str)
    ensures
        out@ == pool_text(pool),
{
    if pool {
        "on"
    } else {
        "off"
    }
}

fn name_of_mode(distinct: bool) -> (out: &'static str)
    ensures
        out@ == mode_name(distinct),
{
    if distinct {
        "distinct"
    } else {
        "same"
    }
}

/// How wide a column of the table is.
pub open spec fn width(i: int) -> int {
    seq![5int, 9, 5, 8, 9, 8, 9, 7, 7, 7, 7, 5, 6, 5, 4][i]
}

/// What stands before a column of the table: a bar before each group but the first.
pub open spec fn gap(i: int) -> Seq<char> {
    if i == 0 {
        "  "@
    } else if i == 3 || i == 6 || i == 12 {
        " │ "@
    } else {
        " "@
    }
}

/// The first `n` columns of a row, each to the right of its width.
pub open spec fn columns(cols: Seq<Seq<char>>, n: nat) -> Seq<char>
    decreases n,
{
    if n == 0 {
        Seq::empty()
    } else {
        columns(cols, (n - 1) as nat) + gap(n - 1) + pad_start_of(cols[n - 1], width(n - 1))
    }
}

fn column(row: String, i: usize, cell: &str) -> (out: String)
    requires
        i < 15,
    ensures
        out@ == row@ + gap(i as int) + pad_start_of(cell@, width(i as int)),
{
    let w: usize = if i == 0 || i == 2 || i == 11 || i == 13 {
        5
    } else if i == 1 || i == 4 || i == 6 {
        9
    } else if i == 3 || i == 5 {
        8
    } else if i == 12 {
        6
    } else if i == 14 {
        4
    } else {
        7
    };
    let g = if i == 0 {
        "  "
    } else if i == 3 || i == 6 || i == 12 {
        " │ "
    } else {
        " "
    };
    row.concat(g).concat(pad_start(cell, w).as_str())
}

/// What a row of the table shows of a cell.
pub open spec fn shown(c: Cell) -> Seq<Seq<char>> {
    seq![
        dec_of(c.key.apps as nat),
        mode_name(c.key.distinct),
        pool_text(c.key.pool),
        c.idle@,
        c.loaded@,
        c.per_app@,
        c.rps@,
        c.p50@,
        c.p99@,
        c.p999@,
        dec_of(c.shed as nat),
        dec_of(c.failed as nat),
        dec_of(c.shared as nat),
        dec_of(c.disk as nat),
        dec_of(c.compiled as nat),
    ]
}

/// What the columns of the table are called.
pub open spec fn captions() -> Seq<Seq<char>> {
    seq![
        "apps"@,
        "digests"@,
        "pool"@,
        "idle MiB"@,
        "loaded"@,
        "per-app"@,
        "rps"@,
        "p50 ms"@,
        "p99 ms"@,
        "p99.9"@,
        "4xx/5xx"@,
        "err"@,
        "shared"@,
        "disk"@,
        "cc"@,
    ]
}

fn table_row(cols: &Vec<String>) -> (out: String)
    requires
        cols@.len() == 15,
    ensures
        out@ == columns(strs(cols@), 15),
{
    let mut out = String::new();
    let mut i: usize = 0;
    assert(out@ =~= columns(strs(cols@), 0));
    while i < 15
        invariant
            i <= 15,
            cols@.len() == 15,
            out@ == columns(strs(cols@), i as nat),
        decreases 15 - i,
    {
        out = column(out, i, cols[i].as_str());
        i = i + 1;
    }
    out
}

/// The row of a cell.
pub fn row(c: &Cell) -> (out: String)
    ensures
        out@ == columns(shown(*c), 15),
{
    let cols = vec![
        dec(c.key.apps),
        name_of_mode(c.key.distinct).to_string(),
        pool_name(c.key.pool).to_string(),
        c.idle.clone(),
        c.loaded.clone(),
        c.per_app.clone(),
        c.rps.clone(),
        c.p50.clone(),
        c.p99.clone(),
        c.p999.clone(),
        dec(c.shed),
        dec(c.failed),
        dec(c.shared),
        dec(c.disk),
        dec(c.compiled),
    ];
    assert(strs(cols@) =~= shown(*c));
    table_row(&cols)
}

fn heading() -> (out: String)
    ensures
        out@ == columns(captions(), 15),
{
    let cols = vec![
        "apps".to_string(),
        "digests".to_string(),
        "pool".to_string(),
        "idle MiB".to_string(),
        "loaded".to_string(),
        "per-app".to_string(),
        "rps".to_string(),
        "p50 ms".to_string(),
        "p99 ms".to_string(),
        "p99.9".to_string(),
        "4xx/5xx".to_string(),
        "err".to_string(),
        "shared".to_string(),
        "disk".to_string(),
        "cc".to_string(),
    ];
    assert(strs(cols@) =~= captions());
    table_row(&cols)
}

/// What the growth of a process after it settled says.
pub open spec fn drift_of(kib: i64) -> Seq<char> {
    if kib > 5120 {
        "  <- GROWING"@
    } else if kib > 1024 {
        "  <- watch"@
    } else {
        ""@
    }
}

/// How much a cell grew after it settled, over `secs` seconds.
pub open spec fn drift_text(c: Cell, secs: nat) -> Seq<char> {
    "    apps="@ + pad_end_of(dec_of(c.key.apps as nat), 4) + " digests="@ + pad_end_of(
        mode_name(c.key.distinct),
        9,
    ) + " pool="@ + pad_end_of(pool_text(c.key.pool), 4) + " "@ + c.drift@ + " MiB over "@ + dec_of(
        secs,
    ) + "s"@ + drift_of(c.drift_kib)
}

/// How much a cell grew after it settled.
pub fn drift_line(c: &Cell, secs: u64) -> (out: String)
    ensures
        out@ == drift_text(*c, secs as nat),
{
    "    apps=".to_string().concat(pad_end(dec(c.key.apps).as_str(), 4).as_str()).concat(
        " digests=",
    ).concat(pad_end(name_of_mode(c.key.distinct), 9).as_str()).concat(" pool=").concat(
        pad_end(pool_name(c.key.pool), 4).as_str(),
    ).concat(" ").concat(c.drift.as_str()).concat(" MiB over ").concat(
        dec(secs).as_str(),
    ).concat("s").concat(drift(c.drift_kib))
}

/// What a cell shares a digest for: its idle memory against its partner's.
pub open spec fn saving_text(c: Cell, other: Cell) -> Seq<char> {
    "    "@ + pad_start_of(dec_of(c.key.apps as nat), 3) + " apps: "@ + pad_start_of(c.idle@, 6)
        + " MiB shared vs "@ + pad_start_of(other.idle@, 6) + " distinct — "@ + c.less@ + " MiB ("@
        + c.share@ + "% less)"@
}

/// What a cell shares a digest for.
pub fn saving_line(c: &Cell, other: &Cell) -> (out: String)
    ensures
        out@ == saving_text(*c, *other),
{
    "    ".to_string().concat(pad_start(dec(c.key.apps).as_str(), 3).as_str()).concat(
        " apps: ",
    ).concat(pad_start(c.idle.as_str(), 6).as_str()).concat(" MiB shared vs ").concat(
        pad_start(other.idle.as_str(), 6).as_str(),
    ).concat(" distinct — ").concat(c.less.as_str()).concat(" MiB (").concat(
        c.share.as_str(),
    ).concat("% less)")
}

/// What is said of a cell's answers that were no success: nothing where there were none.
pub open spec fn refusal_lines(c: Cell) -> Seq<Seq<char>> {
    if c.statuses@.len() == 0 {
        Seq::empty()
    } else {
        seq![
            "\n  non-2xx at apps="@ + dec_of(c.key.apps as nat) + ": "@ + join_of(
                status_texts(c.statuses@),
                " "@,
            ),
        ] + (match c.first_refusal {
            Some(r) => seq!["    first said: "@ + r@],
            None => Seq::empty(),
        }) + match c.window {
            Some(w) => seq!["    between "@ + w.0@ + "s and "@ + w.1@ + "s into the run"@],
            None => Seq::empty(),
        }
    }
}

/// What is said of a cell's requests that never arrived.
pub open spec fn failure_lines(c: Cell) -> Seq<Seq<char>> {
    match c.first_error {
        Some(e) => if c.failed > 0 {
            seq![
                "\n  "@ + dec_of(c.failed as nat) + " transport failures at apps="@ + dec_of(
                    c.key.apps as nat,
                ) + ": "@ + e@,
            ]
        } else {
            Seq::empty()
        },
        None => Seq::empty(),
    }
}

/// What is said of a cell that shares a digest, where another is like it but for that.
pub open spec fn saving_lines(cells: Seq<Cell>, c: Cell) -> Seq<Seq<char>> {
    if c.key.distinct {
        Seq::empty()
    } else {
        match partner_from(keys(cells), c.key, 0) {
            Some(j) => seq![saving_text(c, cells[j])],
            None => Seq::empty(),
        }
    }
}

/// The keys of some cells.
pub open spec fn keys(cells: Seq<Cell>) -> Seq<Key> {
    cells.map_values(|c: Cell| c.key)
}

/// The parts of a report that go through the cells.
#[derive(Debug, Clone, Copy, PartialEq, Eq, Structural)]
pub enum Part {
    Rows,
    Drift,
    Refusals,
    Failures,
    Savings,
}

/// What one part says of one cell.
pub open spec fn lines_for(part: Part, all: Seq<Cell>, c: Cell, secs: nat) -> Seq<Seq<char>> {
    match part {
        Part::Rows => seq![columns(shown(c), 15)],
        Part::Drift => seq![drift_text(c, secs)],
        Part::Refusals => refusal_lines(c),
        Part::Failures => failure_lines(c),
        Part::Savings => saving_lines(all, c),
    }
}

/// What one part says of the first `n` cells, in their order.
pub open spec fn part_lines(part: Part, all: Seq<Cell>, n: nat, secs: nat) -> Seq<Seq<char>>
    decreases n,
{
    if n == 0 {
        Seq::empty()
    } else {
        part_lines(part, all, (n - 1) as nat, secs) + lines_for(part, all, all[n - 1], secs)
    }
}

/// The report: how the load was offered, a table of the cells, how much each grew over
/// the seconds after it settled, what was refused and what failed, and what sharing a
/// digest saves.
pub open spec fn report_of(cells: Seq<Cell>, offer: Seq<char>, seconds: nat, conns: nat) -> Seq<
    Seq<char>,
> {
    let n = cells.len();
    let secs = (seconds - 10) as nat;
    seq![
        "\n=== matrix: "@ + dec_of(seconds) + "s of load per cell, "@ + dec_of(conns)
            + " workers, "@ + offer + " ===\n"@,
        columns(captions(), 15),
    ] + part_lines(Part::Rows, cells, n, secs) + seq![
        "\n  drift after steady state (a leak shows up here, not in a spike):"@,
    ] + part_lines(Part::Drift, cells, n, secs) + part_lines(Part::Refusals, cells, n, secs)
        + part_lines(Part::Failures, cells, n, secs) + seq![
        "\n  what sharing a digest saves, at equal app count:"@,
    ] + part_lines(Part::Savings, cells, n, secs)
}

fn say(out: &mut Vec<String>, line: String)
    ensures
        strs(final(out)@) == strs(old(out)@) + seq![line@],
{
    let ghost o = out@;
    out.push(line);
    assert(strs(out@) =~= strs(o) + seq![line@]);
}

fn say_refusals(out: &mut Vec<String>, c: &Cell)
    ensures
        strs(final(out)@) == strs(old(out)@) + refusal_lines(*c),
{
    let ghost before = strs(out@);
    if c.statuses.len() > 0 {
        say(out, refusals_line(c.key.apps, &c.statuses));
        if let Some(r) = &c.first_refusal {
            say(out, "    first said: ".to_string().concat(r.as_str()));
        }
        if let Some(w) = &c.window {
            say(
                out,
                "    between ".to_string().concat(w.0.as_str()).concat("s and ").concat(
                    w.1.as_str(),
                ).concat("s into the run"),
            );
        }
    }
    assert(strs(out@) =~= before + refusal_lines(*c));
}

fn say_part(out: &mut Vec<String>, part: Part, cells: &Vec<Cell>, ks: &Vec<Key>, secs: u64)
    requires
        ks@ == keys(cells@),
    ensures
        strs(final(out)@) == strs(old(out)@) + part_lines(
            part,
            cells@,
            cells@.len(),
            secs as nat,
        ),
{
    let ghost before = strs(out@);
    let mut i: usize = 0;
    assert(strs(out@) =~= before + part_lines(part, cells@, 0, secs as nat));
    while i < cells.len()
        invariant
            i <= cells.len(),
            ks@ == keys(cells@),
            strs(out@) == before + part_lines(part, cells@, i as nat, secs as nat),
        decreases cells.len() - i,
    {
        let ghost now = strs(out@);
        let c = &cells[i];
        match part {
            Part::Rows => say(out, row(c)),
            Part::Drift => say(out, drift_line(c, secs)),
            Part::Refusals => say_refusals(out, c),
            Part::Failures => {
                if let Some(e) = &c.first_error {
                    if c.failed > 0 {
                        say(out, failures_line(c.failed, c.key.apps, e.as_str()));
                    }
                }
            },
            Part::Savings => {
                if let Some(j) = partner(ks, &c.key) {
                    proof {
                        lemma_partner_exists(ks@, c.key, 0);
                    }
                    say(out, saving_line(c, &cells[j]));
                }
            },
        }
        assert(strs(out@) =~= now + lines_for(part, cells@, *c, secs as nat));
        assert(strs(out@) =~= before + part_lines(part, cells@, (i + 1) as nat, secs as nat));
        i = i + 1;
    }
}

proof fn lemma_partner_exists(cells: Seq<Key>, k: Key, i: int)
    requires
        0 <= i,
    ensures
        partner_from(cells, k, i) matches Some(j) ==> i <= j < cells.len(),
    decreases cells.len() - i,
{
    if i < cells.len() {
        lemma_partner_exists(cells, k, i + 1);
    }
}

/// The report on some cells.
pub fn report(
    cells: &Vec<Cell>,
    rate: Option<u32>,
    direct: bool,
    seconds: u64,
    conns: u64,
) -> (out: Vec<String>)
    requires
        seconds >= 10 || cells@.len() == 0,
    ensures
        strs(out@) == report_of(cells@, loop_of(rate, direct), seconds as nat, conns as nat),
{
    let mut ks: Vec<Key> = Vec::new();
    let mut i: usize = 0;
    while i < cells.len()
        invariant
            i <= cells.len(),
            ks@ =~= keys(cells@).take(i as int),
        decreases cells.len() - i,
    {
        ks.push(cells[i].key);
        i = i + 1;
    }
    assert(ks@ =~= keys(cells@));
    let secs: u64 = if seconds >= 10 {
        seconds - 10
    } else {
        0
    };
    let mut out: Vec<String> = Vec::new();
    assert(strs(out@) =~= Seq::<Seq<char>>::empty());
    say(
        &mut out,
        "\n=== matrix: ".to_string().concat(dec(seconds).as_str()).concat(
            "s of load per cell, ",
        ).concat(dec(conns).as_str()).concat(" workers, ").concat(
            loop_text(rate, direct).as_str(),
        ).concat(" ===\n"),
    );
    say(&mut out, heading());
    say_part(&mut out, Part::Rows, cells, &ks, secs);
    say(
        &mut out,
        "\n  drift after steady state (a leak shows up here, not in a spike):".to_string(),
    );
    say_part(&mut out, Part::Drift, cells, &ks, secs);
    say_part(&mut out, Part::Refusals, cells, &ks, secs);
    say_part(&mut out, Part::Failures, cells, &ks, secs);
    say(&mut out, "\n  what sharing a digest saves, at equal app count:".to_string());
    say_part(&mut out, Part::Savings, cells, &ks, secs);
    assert(strs(out@) =~= report_of(
        cells@,
        loop_of(rate, direct),
        seconds as nat,
        conns as nat,
    ));
    out
}

// --------------------------------------------------------------------- laws --

/// Each number of a cell stands under its own caption, in as wide a column, and there are as
/// many numbers as captions.
pub proof fn law_each_number_stands_under_its_caption(c: Cell)
    ensures
        shown(c).len() == captions().len() == 15,
        captions()[0] == "apps"@ && shown(c)[0] == dec_of(c.key.apps as nat),
        captions()[1] == "digests"@ && shown(c)[1] == mode_name(c.key.distinct),
        captions()[2] == "pool"@ && shown(c)[2] == pool_text(c.key.pool),
        captions()[3] == "idle MiB"@ && shown(c)[3] == c.idle@,
        captions()[4] == "loaded"@ && shown(c)[4] == c.loaded@,
        captions()[5] == "per-app"@ && shown(c)[5] == c.per_app@,
        captions()[6] == "rps"@ && shown(c)[6] == c.rps@,
        captions()[7] == "p50 ms"@ && shown(c)[7] == c.p50@,
        captions()[8] == "p99 ms"@ && shown(c)[8] == c.p99@,
        captions()[9] == "p99.9"@ && shown(c)[9] == c.p999@,
        captions()[10] == "4xx/5xx"@ && shown(c)[10] == dec_of(c.shed as nat),
        captions()[11] == "err"@ && shown(c)[11] == dec_of(c.failed as nat),
        captions()[12] == "shared"@ && shown(c)[12] == dec_of(c.shared as nat),
        captions()[13] == "disk"@ && shown(c)[13] == dec_of(c.disk as nat),
        captions()[14] == "cc"@ && shown(c)[14] == dec_of(c.compiled as nat),
{
}

/// The row of a cell goes on column by column, each behind its gap and as wide as its caption.
pub proof fn law_a_row_goes_on_column_by_column(cols: Seq<Seq<char>>, n: nat)
    ensures
        columns(cols, n + 1) == columns(cols, n) + gap(n as int) + pad_start_of(
            cols[n as int],
            width(n as int),
        ),
        columns(cols, 0) == Seq::<char>::empty(),
{
}

/// What is said of a drift: more than five MiB is growth, more than one is worth watching, and
/// less is nothing.
pub proof fn law_what_is_said_of_a_drift(kib: i64)
    ensures
        kib > 5 * 1024 ==> drift_of(kib) == "  <- GROWING"@,
        1024 < kib <= 5 * 1024 ==> drift_of(kib) == "  <- watch"@,
        kib <= 1024 ==> drift_of(kib) == ""@,
{
}

/// What is said of a curve: where the second half grew by less than two fifths of the first it
/// flattens; by four fifths or more it climbs; between them it slows.
pub proof fn law_what_is_said_of_a_curve(first: int, second: int)
    ensures
        5 * second <= 2 * first ==> shape_of(first, second) == "flattening (allocator settling)"@,
        5 * second > 2 * first && 5 * second >= 4 * first ==> shape_of(first, second)
            == "still climbing (a leak, not a warm-up)"@,
        2 * first < 5 * second < 4 * first ==> shape_of(first, second) == "slowing, but not flat"@,
{
}

/// A cell is held against the first one with as many apps and the same pool whose digests are
/// distinct.
pub proof fn law_which_cell_another_is_held_against(cells: Seq<Key>, k: Key, i: int)
    requires
        0 <= i <= cells.len(),
    ensures
        partner_from(cells, k, i) matches Some(j) ==> i <= j < cells.len() && cells[j].distinct
            && cells[j].apps == k.apps && cells[j].pool == k.pool && forall|m: int|
            i <= m < j ==> !((#[trigger] cells[m]).distinct && cells[m].apps == k.apps
                && cells[m].pool == k.pool),
        partner_from(cells, k, i) is None ==> forall|m: int|
            i <= m < cells.len() ==> !((#[trigger] cells[m]).distinct && cells[m].apps == k.apps
                && cells[m].pool == k.pool),
    decreases cells.len() - i,
{
    if i < cells.len() && !(cells[i].distinct && cells[i].apps == k.apps && cells[i].pool == k.pool) {
        law_which_cell_another_is_held_against(cells, k, i + 1);
    }
}

/// Failures are told exactly where there were some and the first is known.
pub proof fn law_failures_are_told_where_there_were_some(c: Cell)
    ensures
        failure_lines(c).len() == 0 <==> c.first_error is None || c.failed == 0,
        refusal_lines(c).len() == 0 <==> c.statuses@.len() == 0,
{
}

/// A drift is told of its own cell: how many apps it had, whether their digests were distinct,
/// and over how many seconds it drifted.
pub proof fn law_a_drift_is_told_of_its_cell(c: Cell, secs: nat)
    ensures
        holds(drift_text(c, secs), "    apps="@ + pad_end_of(dec_of(c.key.apps as nat), 4)),
        holds(drift_text(c, secs), " digests="@ + pad_end_of(mode_name(c.key.distinct), 9)),
        holds(drift_text(c, secs), " pool="@ + pad_end_of(pool_text(c.key.pool), 4)),
        holds(drift_text(c, secs), c.drift@ + " MiB over "@),
        holds(drift_text(c, secs), " MiB over "@ + dec_of(secs) + "s"@),
{
    let c0 = "    apps="@;
    let c1 = pad_end_of(dec_of(c.key.apps as nat), 4);
    let c2 = " digests="@;
    let c3 = pad_end_of(mode_name(c.key.distinct), 9);
    let c4 = " pool="@;
    let c5 = pad_end_of(pool_text(c.key.pool), 4);
    let c6 = " "@;
    let c7 = c.drift@;
    let c8 = " MiB over "@;
    let c9 = dec_of(secs);
    let c10 = "s"@;
    let c11 = drift_of(c.drift_kib);
    let s0 = c0;
    let s1 = s0 + c1;
    let s2 = s1 + c2;
    let s3 = s2 + c3;
    let s4 = s3 + c4;
    let s5 = s4 + c5;
    let s6 = s5 + c6;
    let s7 = s6 + c7;
    let s8 = s7 + c8;
    let s9 = s8 + c9;
    let s10 = s9 + c10;
    let s11 = s10 + c11;
    lemma_holds_itself(s1);
    lemma_holds_longer(s1, s1, c2);
    lemma_holds_longer(s2, s1, c3);
    lemma_holds_longer(s3, s1, c4);
    lemma_holds_longer(s4, s1, c5);
    lemma_holds_longer(s5, s1, c6);
    lemma_holds_longer(s6, s1, c7);
    lemma_holds_longer(s7, s1, c8);
    lemma_holds_longer(s8, s1, c9);
    lemma_holds_longer(s9, s1, c10);
    lemma_holds_longer(s10, s1, c11);
    lemma_assoc(s1, c2, c3);
    lemma_holds_end(s1, c2 + c3);
    lemma_holds_longer(s3, c2 + c3, c4);
    lemma_holds_longer(s4, c2 + c3, c5);
    lemma_holds_longer(s5, c2 + c3, c6);
    lemma_holds_longer(s6, c2 + c3, c7);
    lemma_holds_longer(s7, c2 + c3, c8);
    lemma_holds_longer(s8, c2 + c3, c9);
    lemma_holds_longer(s9, c2 + c3, c10);
    lemma_holds_longer(s10, c2 + c3, c11);
    lemma_assoc(s3, c4, c5);
    lemma_holds_end(s3, c4 + c5);
    lemma_holds_longer(s5, c4 + c5, c6);
    lemma_holds_longer(s6, c4 + c5, c7);
    lemma_holds_longer(s7, c4 + c5, c8);
    lemma_holds_longer(s8, c4 + c5, c9);
    lemma_holds_longer(s9, c4 + c5, c10);
    lemma_holds_longer(s10, c4 + c5, c11);
    lemma_assoc(s6, c7, c8);
    lemma_holds_end(s6, c7 + c8);
    lemma_holds_longer(s8, c7 + c8, c9);
    lemma_holds_longer(s9, c7 + c8, c10);
    lemma_holds_longer(s10, c7 + c8, c11);
    lemma_assoc(s7, c8, c9);
    lemma_assoc(s7, c8 + c9, c10);
    lemma_holds_end(s7, c8 + c9 + c10);
    lemma_holds_longer(s10, c8 + c9 + c10, c11);
}

/// A saving is told of both cells: what the shared one held, and what the distinct one did.
pub proof fn law_a_saving_is_told_of_both_cells(c: Cell, other: Cell)
    ensures
        holds(saving_text(c, other), pad_start_of(dec_of(c.key.apps as nat), 3) + " apps: "@),
        holds(saving_text(c, other), pad_start_of(c.idle@, 6) + " MiB shared vs "@),
        holds(saving_text(c, other), pad_start_of(other.idle@, 6) + " distinct — "@),
        holds(saving_text(c, other), " distinct — "@ + c.less@ + " MiB ("@),
        holds(saving_text(c, other), " MiB ("@ + c.share@ + "% less)"@),
{
    let c0 = "    "@;
    let c1 = pad_start_of(dec_of(c.key.apps as nat), 3);
    let c2 = " apps: "@;
    let c3 = pad_start_of(c.idle@, 6);
    let c4 = " MiB shared vs "@;
    let c5 = pad_start_of(other.idle@, 6);
    let c6 = " distinct — "@;
    let c7 = c.less@;
    let c8 = " MiB ("@;
    let c9 = c.share@;
    let c10 = "% less)"@;
    let s0 = c0;
    let s1 = s0 + c1;
    let s2 = s1 + c2;
    let s3 = s2 + c3;
    let s4 = s3 + c4;
    let s5 = s4 + c5;
    let s6 = s5 + c6;
    let s7 = s6 + c7;
    let s8 = s7 + c8;
    let s9 = s8 + c9;
    let s10 = s9 + c10;
    lemma_assoc(s0, c1, c2);
    lemma_holds_end(s0, c1 + c2);
    lemma_holds_longer(s2, c1 + c2, c3);
    lemma_holds_longer(s3, c1 + c2, c4);
    lemma_holds_longer(s4, c1 + c2, c5);
    lemma_holds_longer(s5, c1 + c2, c6);
    lemma_holds_longer(s6, c1 + c2, c7);
    lemma_holds_longer(s7, c1 + c2, c8);
    lemma_holds_longer(s8, c1 + c2, c9);
    lemma_holds_longer(s9, c1 + c2, c10);
    lemma_assoc(s2, c3, c4);
    lemma_holds_end(s2, c3 + c4);
    lemma_holds_longer(s4, c3 + c4, c5);
    lemma_holds_longer(s5, c3 + c4, c6);
    lemma_holds_longer(s6, c3 + c4, c7);
    lemma_holds_longer(s7, c3 + c4, c8);
    lemma_holds_longer(s8, c3 + c4, c9);
    lemma_holds_longer(s9, c3 + c4, c10);
    lemma_assoc(s4, c5, c6);
    lemma_holds_end(s4, c5 + c6);
    lemma_holds_longer(s6, c5 + c6, c7);
    lemma_holds_longer(s7, c5 + c6, c8);
    lemma_holds_longer(s8, c5 + c6, c9);
    lemma_holds_longer(s9, c5 + c6, c10);
    lemma_assoc(s5, c6, c7);
    lemma_assoc(s5, c6 + c7, c8);
    lemma_holds_end(s5, c6 + c7 + c8);
    lemma_holds_longer(s8, c6 + c7 + c8, c9);
    lemma_holds_longer(s9, c6 + c7 + c8, c10);
    lemma_assoc(s7, c8, c9);
    lemma_assoc(s7, c8 + c9, c10);
    lemma_holds_end(s7, c8 + c9 + c10);
}

/// The spec of an app names the app, its tenant and its host by its own number, and runs the
/// component that was given.
pub proof fn law_an_app_is_described_by_its_number(i: nat, component: Seq<char>)
    ensures
        holds(spec_of(i, component), "version: comp/v1\napp: app"@ + dec_of(i) + "\ntenant: t"@),
        holds(spec_of(i, component), "\ntenant: t"@ + dec_of(i) + "\nstrategy: fused\ncomponents:\n  - id: "@),
        holds(spec_of(i, component), "\nstrategy: fused\ncomponents:\n  - id: "@ + component + "\ningress:\n  host: app"@),
        holds(spec_of(i, component), "\ningress:\n  host: app"@ + dec_of(i) + ".matrix.test\n  component: "@),
        holds(spec_of(i, component), ".matrix.test\n  component: "@ + component + "\n"@),
{
    let c0 = "version: comp/v1\napp: app"@;
    let c1 = dec_of(i);
    let c2 = "\ntenant: t"@;
    let c3 = dec_of(i);
    let c4 = "\nstrategy: fused\ncomponents:\n  - id: "@;
    let c5 = component;
    let c6 = "\ningress:\n  host: app"@;
    let c7 = dec_of(i);
    let c8 = ".matrix.test\n  component: "@;
    let c9 = component;
    let c10 = "\n"@;
    let s0 = c0;
    let s1 = s0 + c1;
    let s2 = s1 + c2;
    let s3 = s2 + c3;
    let s4 = s3 + c4;
    let s5 = s4 + c5;
    let s6 = s5 + c6;
    let s7 = s6 + c7;
    let s8 = s7 + c8;
    let s9 = s8 + c9;
    let s10 = s9 + c10;
    lemma_holds_itself(s2);
    lemma_holds_longer(s2, s2, c3);
    lemma_holds_longer(s3, s2, c4);
    lemma_holds_longer(s4, s2, c5);
    lemma_holds_longer(s5, s2, c6);
    lemma_holds_longer(s6, s2, c7);
    lemma_holds_longer(s7, s2, c8);
    lemma_holds_longer(s8, s2, c9);
    lemma_holds_longer(s9, s2, c10);
    lemma_assoc(s1, c2, c3);
    lemma_assoc(s1, c2 + c3, c4);
    lemma_holds_end(s1, c2 + c3 + c4);
    lemma_holds_longer(s4, c2 + c3 + c4, c5);
    lemma_holds_longer(s5, c2 + c3 + c4, c6);
    lemma_holds_longer(s6, c2 + c3 + c4, c7);
    lemma_holds_longer(s7, c2 + c3 + c4, c8);
    lemma_holds_longer(s8, c2 + c3 + c4, c9);
    lemma_holds_longer(s9, c2 + c3 + c4, c10);
    lemma_assoc(s3, c4, c5);
    lemma_assoc(s3, c4 + c5, c6);
    lemma_holds_end(s3, c4 + c5 + c6);
    lemma_holds_longer(s6, c4 + c5 + c6, c7);
    lemma_holds_longer(s7, c4 + c5 + c6, c8);
    lemma_holds_longer(s8, c4 + c5 + c6, c9);
    lemma_holds_longer(s9, c4 + c5 + c6, c10);
    lemma_assoc(s5, c6, c7);
    lemma_assoc(s5, c6 + c7, c8);
    lemma_holds_end(s5, c6 + c7 + c8);
    lemma_holds_longer(s8, c6 + c7 + c8, c9);
    lemma_holds_longer(s9, c6 + c7 + c8, c10);
    lemma_assoc(s7, c8, c9);
    lemma_assoc(s7, c8 + c9, c10);
    lemma_holds_end(s7, c8 + c9 + c10);
}

/// A report heads with how it was measured, and then tells every cell in its order: its row, its
/// drift, what was refused and what failed, and what sharing saved.
pub proof fn law_a_report_tells_every_cell(cells: Seq<Cell>, offer: Seq<char>, seconds: nat, conns: nat, i: int)
    requires
        0 <= i < cells.len(),
        seconds >= 10,
    ensures
        report_of(cells, offer, seconds, conns)[0] == "\n=== matrix: "@ + dec_of(seconds)
            + "s of load per cell, "@ + dec_of(conns) + " workers, "@ + offer + " ===\n"@,
        report_of(cells, offer, seconds, conns)[1] == columns(captions(), 15),
        report_of(cells, offer, seconds, conns)[2 + i] == columns(shown(cells[i]), 15),
        report_of(cells, offer, seconds, conns)[3 + cells.len() + i] == drift_text(
            cells[i],
            (seconds - 10) as nat,
        ),
{
    let secs = (seconds - 10) as nat;
    lemma_part_rows(cells, cells.len(), secs, i);
}

proof fn lemma_part_rows(cells: Seq<Cell>, n: nat, secs: nat, i: int)
    requires
        n <= cells.len(),
    ensures
        part_lines(Part::Rows, cells, n, secs).len() == n,
        part_lines(Part::Drift, cells, n, secs).len() == n,
        0 <= i < n ==> part_lines(Part::Rows, cells, n, secs)[i] == columns(shown(cells[i]), 15),
        0 <= i < n ==> part_lines(Part::Drift, cells, n, secs)[i] == drift_text(cells[i], secs),
    decreases n,
{
    if n > 0 {
        lemma_part_rows(cells, (n - 1) as nat, secs, i);
    }
}

/// A saving is told only of a cell whose digests are shared, against its partner.
pub proof fn law_a_saving_is_told_of_shared_digests(cells: Seq<Cell>, c: Cell)
    ensures
        c.key.distinct ==> saving_lines(cells, c).len() == 0,
        !c.key.distinct && partner_from(keys(cells), c.key, 0) is Some ==> saving_lines(cells, c)
            == seq![saving_text(c, cells[partner_from(keys(cells), c.key, 0)->0])],
        !c.key.distinct && partner_from(keys(cells), c.key, 0) is None ==> saving_lines(cells, c).len()
            == 0,
{
}

/// Apps with distinct digests are components and artifacts of their own; with shared ones they
/// are all the same.
pub proof fn law_distinct_apps_have_their_own_artifacts(wasm: Seq<u8>, i: nat, j: nat)
    ensures
        component_of(i, false) == component_of(j, false),
        artifact_of(wasm, i, false) == wasm,
        component_of(i, true) == "gate"@ + dec_of(i),
        artifact_of(wasm, i, true) == wasm + section_of(
            vstd::utf8::encode_utf8("comp-matrix-"@ + dec_of(i)),
        ),
{
}

/// How the load was offered is told: at a rate where there is one, and through which door.
pub proof fn law_how_the_load_was_offered(rate: Option<u32>, direct: bool)
    ensures
        rate is Some ==> loop_of(rate, direct) == "OPEN loop at "@ + dec_of(rate->0 as nat)
            + " rps offered, through "@ + door_of(direct),
        rate is None ==> loop_of(rate, direct)
            == "CLOSED loop (latency == conns/rps by Little's law), through "@ + door_of(direct),
        direct ==> door_of(direct) == "a host directly"@,
        !direct ==> door_of(direct) == "the ingress"@,
{
}

/// A diagnosis counts the complaints of the host and the stops of the reconciler, and shows the
/// first three of each.
pub proof fn law_what_a_diagnosis_counts(host: Seq<char>, reconciler: Seq<char>)
    ensures
        diagnosis_of(host, reconciler)[0] == "    diagnosis: host heartbeat complaints="@ + dec_of(
            lines_of(host).filter(|l: Seq<char>| holds(l, "heartbeat"@)).len(),
        ) + ", reconciler stop commands="@ + dec_of(
            lines_of(reconciler).filter(|l: Seq<char>| holds(l, "stop"@)).len(),
        ),
        diagnosis_of(host, reconciler).len() <= 7,
{
    assert(lines_with(lines_of(host), "heartbeat"@) =~= lines_of(host).filter(
        |l: Seq<char>| holds(l, "heartbeat"@),
    )) by {
        assert((|l: Seq<char>| holds(l, "heartbeat"@)) =~= (|l: Seq<char>| holds(l, "heartbeat"@)));
    }
    lemma_lines_with(lines_of(host), "heartbeat"@);
    lemma_lines_with(lines_of(reconciler), "stop"@);
}

proof fn lemma_lines_with(ls: Seq<Seq<char>>, word: Seq<char>)
    ensures
        lines_with(ls, word) == ls.filter(|l: Seq<char>| holds(l, word)),
{
}

} // verus!

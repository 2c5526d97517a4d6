//! Which addresses a scan of the local network covers, and what it reports.

use vstd::prelude::*;
use vstd::string::*;

use crate::json::{Json, Tree, entry_from, entry_trees, law_a_refusal_says_why, list, no_entries, object, put, refusal, refusal_tree, single, text, trees};
use crate::number::{all_digits, dec, dec_of, digits_value, number_of, parse_number, parse_u32};
use crate::text::{chars_of, split, split_of, split_once, split_once_of, strs};

verus! {

/// An address.
#[derive(Debug, Clone, Copy, PartialEq, Eq, Structural)]
pub struct Ipv4 {
    pub a: u8,
    pub b: u8,
    pub c: u8,
    pub d: u8,
}

impl Ipv4 {
    /// The address of four octets.
    pub fn new(a: u8, b: u8, c: u8, d: u8) -> (r: Self)
        ensures
            r == (Ipv4 { a, b, c, d }),
    {
        Ipv4 { a, b, c, d }
    }

    /// The address as text.
    pub open spec fn text_of(self) -> Seq<char> {
        dec_of(self.a as nat) + "."@ + dec_of(self.b as nat) + "."@ + dec_of(self.c as nat) + "."@
            + dec_of(self.d as nat)
    }

    /// The address as text.
    pub fn text(&self) -> (out: String)
        ensures
            out@ == self.text_of(),
    {
        dec(self.a as u64).concat(".").concat(dec(self.b as u64).as_str()).concat(".").concat(
            dec(self.c as u64).as_str(),
        ).concat(".").concat(dec(self.d as u64).as_str())
    }
}

/// An octet: up to three digits, none of them an idle zero in front.
pub open spec fn octet_in(s: Seq<char>) -> Option<u8> {
    if 1 <= s.len() <= 3 && all_digits(s, 10) && (s.len() > 1 ==> s[0] != '0') && digits_value(
        s,
        10,
    ) <= 255 {
        Some(digits_value(s, 10) as u8)
    } else {
        None
    }
}

/// The address that a text is: four octets set apart by dots.
pub open spec fn addr_in(s: Seq<char>) -> Option<Ipv4> {
    let ps = split_of(s, '.');
    if ps.len() == 4 {
        match (octet_in(ps[0]), octet_in(ps[1]), octet_in(ps[2]), octet_in(ps[3])) {
            (Some(a), Some(b), Some(c), Some(d)) => Some(Ipv4 { a, b, c, d }),
            _ => None,
        }
    } else {
        None
    }
}

fn octet(s: &str) -> (r: Option<u8>)
    ensures
        r == octet_in(s@),
{
    let cs = chars_of(s);
    if cs.len() == 0 || cs.len() > 3 || cs.len() > 1 && cs[0] == '0' || cs[0] == '+' {
        proof {
            if s@.len() > 0 && s@[0] == '+' {
                assert(!all_digits(s@, 10));
            }
        }
        return None;
    }
    match parse_number(s, 10, 255) {
        Some(n) => Some(n as u8),
        None => None,
    }
}

/// The address that a text is.
pub fn parse_addr(s: &str) -> (r: Option<Ipv4>)
    ensures
        r == addr_in(s@),
{
    let ps = split(s, '.');
    let ghost vs = split_of(s@, '.');
    assert(vs.len() == ps@.len());
    if ps.len() != 4 {
        return None;
    }
    assert(vs[0] == ps@[0]@ && vs[1] == ps@[1]@ && vs[2] == ps@[2]@ && vs[3] == ps@[3]@);
    match (
        octet(ps[0].as_str()),
        octet(ps[1].as_str()),
        octet(ps[2].as_str()),
        octet(ps[3].as_str()),
    ) {
        (Some(a), Some(b), Some(c), Some(d)) => Some(Ipv4 { a, b, c, d }),
        _ => None,
    }
}

/// How many addresses a network of this prefix has.
pub open spec fn size_of(prefix: int) -> int
    decreases 32 - prefix,
{
    if prefix >= 32 {
        1
    } else {
        2 * size_of(prefix + 1)
    }
}

/// The last octet of the first address of the network that `d` lies in.
pub open spec fn floor_of(d: int, size: int) -> int {
    d / size * size
}

/// The addresses of a network, in order.
pub open spec fn network_of(base: Ipv4, prefix: int) -> Seq<Ipv4> {
    Seq::new(
        size_of(prefix) as nat,
        |i: int|
            Ipv4 {
                a: base.a,
                b: base.b,
                c: base.c,
                d: (floor_of(base.d as int, size_of(prefix)) + i) as u8,
            },
    )
}

/// The addresses that a range names, where it is no broader than one octet.
pub open spec fn hosts_of(cidr: Seq<char>) -> Option<Seq<Ipv4>> {
    match split_once_of(cidr, '/') {
        None => None,
        Some((addr, prefix)) => match (addr_in(addr), number_of(prefix, 10)) {
            (Some(base), Some(p)) => if 24 <= p <= 32 {
                Some(network_of(base, p))
            } else {
                None
            },
            _ => None,
        },
    }
}

proof fn lemma_sizes()
    ensures
        size_of(32) == 1,
        size_of(31) == 2,
        size_of(30) == 4,
        size_of(29) == 8,
        size_of(28) == 16,
        size_of(27) == 32,
        size_of(26) == 64,
        size_of(25) == 128,
        size_of(24) == 256,
{
    reveal_with_fuel(size_of, 10);
}

proof fn lemma_network(d: int, prefix: int)
    requires
        0 <= d < 256,
        24 <= prefix <= 32,
    ensures
        1 <= size_of(prefix) <= 256,
        0 <= floor_of(d, size_of(prefix)) <= d,
        d < floor_of(d, size_of(prefix)) + size_of(prefix) <= 256,
{
    lemma_sizes();
    if prefix == 32 {
        assert(d / 1 * 1 <= d < d / 1 * 1 + 1 <= 256);
    } else if prefix == 31 {
        assert(d / 2 * 2 <= d < d / 2 * 2 + 2 <= 256);
    } else if prefix == 30 {
        assert(d / 4 * 4 <= d < d / 4 * 4 + 4 <= 256);
    } else if prefix == 29 {
        assert(d / 8 * 8 <= d < d / 8 * 8 + 8 <= 256);
    } else if prefix == 28 {
        assert(d / 16 * 16 <= d < d / 16 * 16 + 16 <= 256);
    } else if prefix == 27 {
        assert(d / 32 * 32 <= d < d / 32 * 32 + 32 <= 256);
    } else if prefix == 26 {
        assert(d / 64 * 64 <= d < d / 64 * 64 + 64 <= 256);
    } else if prefix == 25 {
        assert(d / 128 * 128 <= d < d / 128 * 128 + 128 <= 256);
    } else if prefix == 24 {
        assert(d / 256 * 256 <= d < d / 256 * 256 + 256 <= 256);
    }
}

fn size(prefix: u32) -> (n: u32)
    requires
        24 <= prefix <= 32,
    ensures
        n == size_of(prefix as int),
{
    proof {
        lemma_sizes();
    }
    if prefix == 32 {
        1
    } else if prefix == 31 {
        2
    } else if prefix == 30 {
        4
    } else if prefix == 29 {
        8
    } else if prefix == 28 {
        16
    } else if prefix == 27 {
        32
    } else if prefix == 26 {
        64
    } else if prefix == 25 {
        128
    } else {
        256
    }
}

/// The addresses that a range names; none where it cannot be read, or is so broad that a
/// scan would not stay bounded.
pub fn hosts_in_cidr(cidr: &str) -> (r: Option<Vec<Ipv4>>)
    ensures
        (match r {
            Some(v) => Some(v@),
            None => None,
        }) == hosts_of(cidr@),
{
    let (addr, prefix) = match split_once(cidr, '/') {
        Some(p) => p,
        None => {
            return None;
        },
    };
    let base = match parse_addr(addr.as_str()) {
        Some(b) => b,
        None => {
            return None;
        },
    };
    let p = match parse_u32(prefix.as_str()) {
        Some(p) => p,
        None => {
            return None;
        },
    };
    if p < 24 || p > 32 {
        return None;
    }
    let n = size(p);
    proof {
        lemma_network(base.d as int, p as int);
    }
    let low = base.d as u32 / n * n;
    let ghost want = network_of(base, p as int);
    let mut v: Vec<Ipv4> = Vec::new();
    let mut i: u32 = 0;
    assert(v@ =~= want.take(0));
    while i < n
        invariant
            i <= n,
            n == size_of(p as int),
            low == floor_of(base.d as int, n as int),
            low + n <= 256,
            want == network_of(base, p as int),
            v@ == want.take(i as int),
        decreases n - i,
    {
        v.push(Ipv4 { a: base.a, b: base.b, c: base.c, d: (low + i) as u8 });
        assert(want.take(i + 1) =~= want.take(i as int).push(want[i as int]));
        i = i + 1;
    }
    assert(want.take(i as int) =~= want);
    Some(v)
}

/// A scan stays bounded: no range that is accepted names more addresses than one octet
/// has.
pub proof fn law_a_range_is_bounded(cidr: Seq<char>)
    ensures
        hosts_of(cidr) matches Some(v) ==> 1 <= v.len() <= 256,
{
    lemma_sizes();
}

/// A range covers the address that it is written with, and nothing outside of that
/// address's first three octets.
pub proof fn law_a_range_covers_its_address(base: Ipv4, prefix: int)
    requires
        24 <= prefix <= 32,
    ensures
        network_of(base, prefix).contains(base),
        forall|i: int|
            0 <= i < network_of(base, prefix).len() ==> {
                let h = #[trigger] network_of(base, prefix)[i];
                h.a == base.a && h.b == base.b && h.c == base.c && h.d as int / size_of(prefix)
                    == base.d as int / size_of(prefix)
            },
{
    lemma_network(base.d as int, prefix);
    lemma_sizes();
    let v = network_of(base, prefix);
    let size = size_of(prefix);
    let low = floor_of(base.d as int, size);
    let at = base.d as int - low;
    assert(v[at] == base);
    assert forall|i: int| 0 <= i < v.len() implies {
        let h = #[trigger] v[i];
        h.a == base.a && h.b == base.b && h.c == base.c && h.d as int / size == base.d as int
            / size
    } by {
        let q = base.d as int / size;
        assert(v[i].d as int == low + i);
        assert((q * size + i) / size == q) by (nonlinear_arith)
            requires
                size > 0,
                0 <= i < size,
        ;
    }
}

/// The addresses of all ranges that can be read, and the ranges that cannot.
pub open spec fn scope_of(cidrs: Seq<Seq<char>>) -> (Seq<Ipv4>, Seq<Seq<char>>)
    decreases cidrs.len(),
{
    if cidrs.len() == 0 {
        (Seq::empty(), Seq::empty())
    } else {
        let (hosts, ignored) = scope_of(cidrs.drop_last());
        match hosts_of(cidrs.last()) {
            Some(h) => (hosts + h, ignored),
            None => (hosts, ignored.push(cidrs.last())),
        }
    }
}

/// The addresses of all ranges that can be read, and the ranges that cannot.
pub fn scope(cidrs: &Vec<String>) -> (r: (Vec<Ipv4>, Vec<String>))
    ensures
        (r.0@, strs(r.1@)) == scope_of(strs(cidrs@)),
{
    let ghost all = strs(cidrs@);
    let mut hosts: Vec<Ipv4> = Vec::new();
    let mut ignored: Vec<String> = Vec::new();
    let mut i: usize = 0;
    assert(all.take(0) =~= Seq::empty());
    assert(strs(ignored@) =~= Seq::empty());
    while i < cidrs.len()
        invariant
            i <= cidrs.len(),
            all == strs(cidrs@),
            (hosts@, strs(ignored@)) == scope_of(all.take(i as int)),
        decreases cidrs.len() - i,
    {
        assert(all.take(i + 1).drop_last() =~= all.take(i as int));
        assert(all.take(i + 1).last() == cidrs@[i as int]@);
        match hosts_in_cidr(cidrs[i].as_str()) {
            Some(h) => {
                let mut h = h;
                let ghost o = hosts@;
                let ghost hs = h@;
                hosts.append(&mut h);
                assert(hosts@ =~= o + hs);
            },
            None => {
                let ghost o = ignored@;
                ignored.push(cidrs[i].clone());
                assert(strs(ignored@) =~= strs(o).push(cidrs@[i as int]@));
            },
        }
        i = i + 1;
    }
    assert(all.take(i as int) =~= all);
    (hosts, ignored)
}

/// One address of a report.
pub open spec fn host_tree(h: Ipv4, reachable: bool) -> Tree {
    Tree::Object(seq![("ip"@, Tree::Text(h.text_of())), ("reachable"@, Tree::Bool(reachable))])
}

/// An address is reported by its text and by whether it answered.
pub proof fn law_an_address_is_reported_whole(h: Ipv4, reachable: bool)
    ensures
        host_tree(h, reachable).field("ip"@) == Some(Tree::Text(h.text_of())),
        host_tree(h, reachable).field("reachable"@) == Some(Tree::Bool(reachable)),
{
    reveal_with_fuel(entry_from, 3);
    reveal_strlit("ip");
    reveal_strlit("reachable");
    assert("ip"@.len() == 2);
    assert("reachable"@.len() == 9);
}

/// The report of a scan. A scanner that nobody scoped has nothing to report on.
pub open spec fn report_of(hosts: Seq<(Ipv4, bool)>) -> Tree {
    if hosts.len() == 0 {
        refusal_tree("unavailable"@, "no --allow-cidr configured"@)
    } else {
        Tree::Object(
            seq![
                (
                    "hosts"@,
                    Tree::List(hosts.map_values(|h: (Ipv4, bool)| host_tree(h.0, h.1))),
                ),
            ],
        )
    }
}

/// The report of a scan.
pub fn report(hosts: &Vec<(Ipv4, bool)>) -> (j: Json)
    ensures
        j@ == report_of(hosts@),
{
    if hosts.len() == 0 {
        return refusal("unavailable", "no --allow-cidr configured");
    }
    let ghost want = hosts@.map_values(|h: (Ipv4, bool)| host_tree(h.0, h.1));
    let mut items: Vec<Json> = Vec::new();
    let mut i: usize = 0;
    assert(trees(items@) =~= want.take(0));
    while i < hosts.len()
        invariant
            i <= hosts.len(),
            want == hosts@.map_values(|h: (Ipv4, bool)| host_tree(h.0, h.1)),
            trees(items@) == want.take(i as int),
        decreases hosts.len() - i,
    {
        let mut v = no_entries();
        put(&mut v, "ip", text(hosts[i].0.text().as_str()));
        put(&mut v, "reachable", Json::Bool(hosts[i].1));
        assert(entry_trees(v@) =~= host_tree(hosts@[i as int].0, hosts@[i as int].1)->Object_0);
        let j = object(v);
        let ghost o = items@;
        items.push(j);
        assert(trees(items@) =~= trees(o).push(j@));
        assert(want.take(i + 1) =~= want.take(i as int).push(want[i as int]));
        i = i + 1;
    }
    assert(want.take(i as int) =~= want);
    single("hosts", list(items))
}

/// A report holds every address that was scanned, in order, with whether it answered; a scanner
/// that nobody scoped refuses.
pub proof fn law_every_address_is_reported(hosts: Seq<(Ipv4, bool)>)
    ensures
        hosts.len() > 0 ==> {
            let t = report_of(hosts).field("hosts"@);
            &&& t is Some
            &&& t->0.items().len() == hosts.len()
            &&& forall|i: int|
                0 <= i < hosts.len() ==> {
                    let h = #[trigger] t->0.items()[i];
                    &&& h.field("ip"@) == Some(Tree::Text(hosts[i].0.text_of()))
                    &&& h.field("reachable"@) == Some(Tree::Bool(hosts[i].1))
                }
        },
        hosts.len() == 0 ==> report_of(hosts).field("error"@) == Some(Tree::Text("unavailable"@)) && report_of(hosts).field("detail"@)
            == Some(Tree::Text("no --allow-cidr configured"@)),
{
    if hosts.len() == 0 {
        law_a_refusal_says_why("unavailable"@, "no --allow-cidr configured"@);
    } else {
        let t = report_of(hosts).field("hosts"@);
        assert(t->0.items() == hosts.map_values(|h: (Ipv4, bool)| host_tree(h.0, h.1)));
        assert forall|i: int| 0 <= i < hosts.len() implies {
            let h = #[trigger] t->0.items()[i];
            &&& h.field("ip"@) == Some(Tree::Text(hosts[i].0.text_of()))
            &&& h.field("reachable"@) == Some(Tree::Bool(hosts[i].1))
        } by {
            law_an_address_is_reported_whole(hosts[i].0, hosts[i].1);
            assert(t->0.items()[i] == host_tree(hosts[i].0, hosts[i].1));
        }
    }
}

/// A range that can be read adds its addresses to the scope, and any other is put aside; none
/// is lost.
pub proof fn law_a_range_is_scanned_or_put_aside(cidrs: Seq<Seq<char>>, c: Seq<char>)
    ensures
        hosts_of(c) is Some ==> scope_of(cidrs.push(c)).0 == scope_of(cidrs).0 + hosts_of(c)->0
            && scope_of(cidrs.push(c)).1 == scope_of(cidrs).1,
        hosts_of(c) is None ==> scope_of(cidrs.push(c)).0 == scope_of(cidrs).0 && scope_of(
            cidrs.push(c),
        ).1 == scope_of(cidrs).1.push(c),
{
    assert(cidrs.push(c).drop_last() =~= cidrs);
}

/// An address is read number by number, in the order in which it is written, and no number is
/// above two hundred and fifty-five.
pub proof fn law_an_address_is_read_in_its_order(s: Seq<char>)
    ensures
        addr_in(s) is Some ==> ({
            let ps = split_of(s, '.');
            let h = addr_in(s)->0;
            &&& ps.len() == 4
            &&& h.a == digits_value(ps[0], 10)
            &&& h.b == digits_value(ps[1], 10)
            &&& h.c == digits_value(ps[2], 10)
            &&& h.d == digits_value(ps[3], 10)
        }),
{
    if addr_in(s) is Some {
        let ps = split_of(s, '.');
        crate::number::lemma_digits_grow(ps[0], 10, 0);
        crate::number::lemma_digits_grow(ps[1], 10, 0);
        crate::number::lemma_digits_grow(ps[2], 10, 0);
        crate::number::lemma_digits_grow(ps[3], 10, 0);
    }
}

/// An address is written by its four numbers in their order, with points between them.
pub proof fn law_an_address_is_written_number_by_number(ip: Ipv4)
    ensures
        ip.text_of() == dec_of(ip.a as nat) + "."@ + dec_of(ip.b as nat) + "."@ + dec_of(ip.c as nat)
            + "."@ + dec_of(ip.d as nat),
{
}

} // verus!

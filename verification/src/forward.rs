//! One request through the door: which replica it goes to, when it is shed, and how
//! the walk past dead and slow replicas ends.

use vstd::prelude::*;
use vstd::string::*;

use crate::ingress::{Backend, BackendView, Balance, Table, backend_views};
use crate::json::{Json, Tree, entry_from, entry_trees, json_in_bytes, no_entries, object, parse_bytes, put, text};
use crate::number::{dec, dec_of};
use crate::order::{lemma_permutation_hits, permutes, ranks, stable_order};
use crate::text::{before_char, before_char_of, debug, debug_of, lower, lower_of, replace_char, replace_char_of};
use crate::text_map::TextMap;

verus! {

// -------------------------------------------------------------- in flight --

/// Requests in flight per node, kept apart from the table, which is replaced on
/// every refresh.
#[derive(Debug, PartialEq, Eq)]
pub struct InFlight {
    pub counts: TextMap<u64>,
}

impl InFlight {
    /// How many requests each node carries; a node that was never counted carries
    /// none.
    pub open spec fn load(&self, node: Seq<char>) -> u64 {
        if self.counts@.contains_key(node) {
            self.counts@[node]
        } else {
            0
        }
    }

    /// Nothing in flight.
    pub fn new() -> (f: InFlight)
        ensures
            f.counts.wf(),
            forall|n: Seq<char>| f.load(n) == 0,
    {
        InFlight { counts: TextMap::new() }
    }

    /// How many requests `node` carries.
    pub fn counter(&self, node: &str) -> (n: u64)
        requires
            self.counts.wf(),
        ensures
            n == self.load(node@),
    {
        match self.counts.get(node) {
            Some(c) => *c,
            None => 0,
        }
    }
}

/// One more request is in flight to `node`, and nothing else changed.
pub open spec fn began(was: InFlight, is: InFlight, node: Seq<char>) -> bool {
    forall|n: Seq<char>|
        #[trigger] is.load(n) == was.load(n) + if n == node {
            1int
        } else {
            0int
        }
}

/// A request that a node carries, from its start to its end.
#[derive(Debug, PartialEq, Eq)]
pub struct Busy {
    node: String,
}

impl Busy {
    /// The node that carries the request.
    pub closed spec fn on_node(&self) -> Seq<char> {
        self.node@
    }

    /// `node` takes on one more request.
    pub fn on(inflight: &mut InFlight, node: &str) -> (b: Busy)
        requires
            old(inflight).counts.wf(),
            old(inflight).load(node@) < u64::MAX,
        ensures
            final(inflight).counts.wf(),
            b.on_node() == node@,
            began(*old(inflight), *final(inflight), node@),
    {
        let n = inflight.counter(node);
        inflight.counts.insert(node.to_string(), n + 1);
        Busy { node: node.to_string() }
    }

    /// The request is over: its node carries one less.
    pub fn end(self, inflight: &mut InFlight)
        requires
            old(inflight).counts.wf(),
            old(inflight).load(self.on_node()) > 0,
        ensures
            final(inflight).counts.wf(),
            began(*final(inflight), *old(inflight), self.on_node()),
    {
        let n = inflight.counter(self.node.as_str());
        inflight.counts.insert(self.node, n - 1);
    }
}

/// A request that began and ended leaves every count as it was: none leaks.
pub proof fn law_a_guard_leaks_no_count(was: InFlight, busy: InFlight, is: InFlight, node: Seq<char>)
    requires
        began(was, busy, node),
        began(is, busy, node),
    ensures
        forall|n: Seq<char>| is.load(n) == was.load(n),
{
    assert forall|n: Seq<char>| is.load(n) == was.load(n) by {
        assert(busy.load(n) == was.load(n) + if n == node { 1int } else { 0int });
        assert(busy.load(n) == is.load(n) + if n == node { 1int } else { 0int });
    }
}

/// The node carries `bound` requests for each of its cores; a bound of zero turns
/// the rule off.
pub open spec fn full(cpus: usize, load: u64, bound: usize) -> bool {
    bound > 0 && load >= bound * cpus
}

/// Is this node already carrying all that it should?
pub fn saturated(b: &Backend, load: u64, bound: usize) -> (r: bool)
    requires
        bound * b.cpus <= u64::MAX,
    ensures
        r == full(b.cpus, load, bound),
{
    if bound == 0 {
        return false;
    }
    assert(bound * b.cpus == bound as u64 * b.cpus as u64);
    load >= bound as u64 * b.cpus as u64
}

// --------------------------------------------------------------- the order --

/// Where backend `k` of `n` stands when the list is rotated left by `start`.
pub open spec fn rotated_at(k: int, start: int, n: int) -> int {
    (k + n - start % n) % n
}

/// `p` ranks the backends: rotated by the request's number, and for the least
/// outstanding then by load, equal loads keeping the rotation.
pub open spec fn ranking(p: Seq<usize>, loads: Seq<u64>, mode: Balance, start: int) -> bool {
    let n = loads.len() as int;
    &&& permutes(p, n)
    &&& forall|a: int, b: int|
        0 <= a < b < p.len() ==> match mode {
            Balance::RoundRobin => rotated_at(p[a] as int, start, n) < rotated_at(
                p[b] as int,
                start,
                n,
            ),
            Balance::LeastOutstanding => loads[p[a] as int] < loads[p[b] as int] || (
            loads[p[a] as int] == loads[p[b] as int] && rotated_at(p[a] as int, start, n)
                < rotated_at(p[b] as int, start, n)),
        }
}

/// The indices `0..n` rotated left by `start`.
fn rotation(n: usize, start: usize) -> (r: Vec<usize>)
    ensures
        permutes(r@, n as int),
        forall|i: int| 0 <= i < n ==> rotated_at(#[trigger] r[i] as int, start as int, n as int) == i,
{
    let mut r: Vec<usize> = Vec::new();
    if n == 0 {
        return r;
    }
    let shift: usize = start % n;
    let mut i: usize = 0;
    while i < n
        invariant
            i <= n,
            n > 0,
            shift == start % n,
            shift < n,
            r.len() == i,
            forall|k: int|
                0 <= k < i ==> #[trigger] r[k] == if k < n - shift {
                    shift + k
                } else {
                    shift + k - n
                },
        decreases n - i,
    {
        let at: usize = if i < n - shift {
            shift + i
        } else {
            i - (n - shift)
        };
        r.push(at);
        i = i + 1;
    }
    assert forall|k: int| 0 <= k < n implies rotated_at(
        #[trigger] r[k] as int,
        start as int,
        n as int,
    ) == k by {
        let m = n as int;
        let v = r[k] as int + m - shift as int;
        if k < m - shift {
            assert(v == k + m);
            assert((k + m) % m == k) by (nonlinear_arith)
                requires
                    0 <= k < m,
            ;
        } else {
            assert(v == k);
            assert(k % m == k) by (nonlinear_arith)
                requires
                    0 <= k < m,
            ;
        }
    }
    r
}

/// The backends to try, best first, as indices. It is an order and no single choice,
/// so that a retry follows the same judgement.
pub fn rank(loads: &Vec<u64>, mode: Balance, start: usize) -> (p: Vec<usize>)
    ensures
        ranking(p@, loads@, mode, start as int),
{
    let n = loads.len();
    let r = rotation(n, start);
    match mode {
        Balance::RoundRobin => {
            assert forall|a: int, b: int| 0 <= a < b < r.len() implies rotated_at(
                r[a] as int,
                start as int,
                n as int,
            ) < rotated_at(r[b] as int, start as int, n as int) by {
                assert(rotated_at(r[a] as int, start as int, n as int) == a);
                assert(rotated_at(r[b] as int, start as int, n as int) == b);
            }
            r
        },
        Balance::LeastOutstanding => {
            let mut keys: Vec<u64> = Vec::new();
            let mut i: usize = 0;
            while i < n
                invariant
                    i <= n,
                    n == loads.len(),
                    permutes(r@, n as int),
                    keys.len() == i,
                    forall|k: int| 0 <= k < i ==> #[trigger] keys[k] == loads[r[k] as int],
                decreases n - i,
            {
                keys.push(loads[r[i]]);
                i = i + 1;
            }
            let q = stable_order(&keys);
            let mut p: Vec<usize> = Vec::new();
            let mut j: usize = 0;
            while j < n
                invariant
                    j <= n,
                    n == loads.len(),
                    keys.len() == n,
                    permutes(r@, n as int),
                    ranks(q@, keys@),
                    p.len() == j,
                    forall|k: int| 0 <= k < j ==> #[trigger] p[k] == r[q[k] as int],
                decreases n - j,
            {
                p.push(r[q[j]]);
                j = j + 1;
            }
            assert forall|a: int, b: int| 0 <= a < b < p.len() implies p[a] != p[b] && (
            loads[p[a] as int] < loads[p[b] as int] || (loads[p[a] as int] == loads[p[b] as int]
                && rotated_at(p[a] as int, start as int, n as int) < rotated_at(
                p[b] as int,
                start as int,
                n as int,
            ))) by {
                let x = q[a] as int;
                let y = q[b] as int;
                assert(p[a] == r[x] && p[b] == r[y]);
                assert(keys[x] == loads[r[x] as int] && keys[y] == loads[r[y] as int]);
                assert(x != y);
                assert(rotated_at(r[x] as int, start as int, n as int) == x);
                assert(rotated_at(r[y] as int, start as int, n as int) == y);
            }
            p
        },
    }
}

/// The backends to try, best first.
pub fn order<'a>(backends: &'a Vec<Backend>, loads: &Vec<u64>, mode: Balance, start: usize) -> (out:
    Vec<&'a Backend>)
    requires
        loads.len() == backends.len(),
    ensures
        exists|p: Seq<usize>|
            #![trigger ranking(p, loads@, mode, start as int)]
            ranking(p, loads@, mode, start as int) && out.len() == p.len() && forall|i: int|
                0 <= i < p.len() ==> *(#[trigger] out[i]) == backends[p[i] as int],
{
    let p = rank(loads, mode, start);
    let mut out: Vec<&'a Backend> = Vec::new();
    let mut i: usize = 0;
    while i < p.len()
        invariant
            i <= p.len(),
            loads.len() == backends.len(),
            ranking(p@, loads@, mode, start as int),
            out.len() == i,
            forall|k: int| 0 <= k < i ==> *(#[trigger] out[k]) == backends[p[k] as int],
        decreases p.len() - i,
    {
        out.push(&backends[p[i]]);
        i = i + 1;
    }
    assert(ranking(p@, loads@, mode, start as int));
    out
}

/// On a fleet where every node carries the same, consecutive requests go to
/// different nodes first: request `start` goes to node `start % n`.
pub proof fn law_an_idle_fleet_still_rotates(p: Seq<usize>, loads: Seq<u64>, mode: Balance, start: int)
    requires
        ranking(p, loads, mode, start),
        loads.len() > 0,
        start >= 0,
        forall|i: int, j: int| 0 <= i < loads.len() && 0 <= j < loads.len() ==> loads[i] == loads[j],
    ensures
        p[0] == start % (loads.len() as int),
{
    let n = loads.len() as int;
    let s = start % n;
    assert(0 <= s < n) by (nonlinear_arith)
        requires
            n > 0,
            s == start % n,
    ;
    lemma_permutation_hits(p, n, s);
    let a = choose|a: int| 0 <= a < p.len() && p[a] == s;
    assert(rotated_at(s, start, n) == 0) by (nonlinear_arith)
        requires
            n > 0,
            s == start % n,
            rotated_at(s, start, n) == (s + n - start % n) % n,
    ;
    if a > 0 {
        let z = p[0] as int;
        assert(rotated_at(z, start, n) < rotated_at(s, start, n));
        assert(rotated_at(z, start, n) >= 0) by (nonlinear_arith)
            requires
                n > 0,
                rotated_at(z, start, n) == (z + n - start % n) % n,
        ;
    }
}

/// A node that carries more than another is never tried before it.
pub proof fn law_the_node_falling_behind_is_not_first(
    p: Seq<usize>,
    loads: Seq<u64>,
    start: int,
    a: int,
    b: int,
)
    requires
        ranking(p, loads, Balance::LeastOutstanding, start),
        0 <= a < p.len(),
        0 <= b < p.len(),
        loads[p[a] as int] < loads[p[b] as int],
    ensures
        a < b,
{
    if b < a {
        assert(loads[p[b] as int] <= loads[p[a] as int]);
    }
}

// ---------------------------------------------------------------- the walk --

/// What one try of a backend came to.
#[derive(Debug, PartialEq, Eq)]
pub enum Tried {
    /// It answered, whatever it answered.
    Answered,
    /// The connection was refused, for this reason.
    Refused(String),
    /// It did not answer in time.
    TimedOut,
}

/// A request on its way along the ranking.
#[derive(Debug, PartialEq, Eq)]
pub struct Walk {
    /// The ranking.
    pub order: Vec<usize>,
    /// The next place of it to look at.
    pub at: usize,
    /// How many backends were too slow so far.
    pub slow: usize,
    /// What the last failure was.
    pub last: String,
}

/// The next place at or after `at` whose backend has room.
pub open spec fn next_with_room(order: Seq<usize>, full: Seq<bool>, at: int) -> Option<int>
    decreases order.len() - at,
{
    if at < 0 || at >= order.len() {
        None
    } else if !full[order[at] as int] {
        Some(at)
    } else {
        next_with_room(order, full, at + 1)
    }
}

impl Walk {
    /// The walk looks only at places of the ranking.
    pub open spec fn wf(&self) -> bool {
        self.at <= self.order@.len()
    }

    /// A walk from the top of the ranking.
    pub fn new(order: Vec<usize>) -> (w: Walk)
        ensures
            w.wf(),
            w.order@ == order@,
            w.at == 0,
            w.slow == 0,
            w.last@ == Seq::<char>::empty(),
    {
        Walk { order, at: 0, slow: 0, last: String::new() }
    }

    /// The backend to try next: the first in the ranking that has room, while the
    /// budget of slow ones lasts.
    pub fn next(&mut self, full: &Vec<bool>, slow_budget: usize) -> (r: Option<usize>)
        requires
            old(self).wf(),
            forall|i: int| 0 <= i < old(self).order@.len() ==> #[trigger] old(self).order@[i]
                < full.len(),
        ensures
            final(self).wf(),
            final(self).order@ == old(self).order@,
            final(self).slow == old(self).slow,
            final(self).last@ == old(self).last@,
            old(self).slow >= slow_budget ==> r is None && final(self).at == old(self).at,
            old(self).slow < slow_budget ==> match next_with_room(
                old(self).order@,
                full@,
                old(self).at as int,
            ) {
                Some(k) => r == Some(old(self).order@[k]) && final(self).at == k + 1,
                None => r is None && final(self).at == old(self).order@.len(),
            },
    {
        if self.slow >= slow_budget {
            return None;
        }
        let ghost start = self.at as int;
        let ghost ord = self.order@;
        while self.at < self.order.len()
            invariant
                self.at <= self.order@.len(),
                self.order@ == ord,
                ord == old(self).order@,
                self.slow == old(self).slow,
                self.last@ == old(self).last@,
                forall|i: int| 0 <= i < ord.len() ==> #[trigger] ord[i] < full.len(),
                next_with_room(ord, full@, start) == next_with_room(ord, full@, self.at as int),
                start == old(self).at,
                old(self).slow < slow_budget,
            decreases self.order@.len() - self.at,
        {
            let k = self.order[self.at];
            self.at = self.at + 1;
            if !full[k] {
                return Some(k);
            }
        }
        None
    }

    /// Note what a try of `node` came to. Only one that was too slow counts against
    /// the budget.
    pub fn note(&mut self, node: &str, tried: &Tried)
        requires
            old(self).wf(),
            old(self).slow < usize::MAX,
        ensures
            final(self).wf(),
            final(self).order@ == old(self).order@,
            final(self).at == old(self).at,
            match tried {
                Tried::Answered => final(self).slow == old(self).slow && final(self).last@ == old(
                    self,
                ).last@,
                Tried::Refused(e) => final(self).slow == old(self).slow && final(self).last@
                    == node@ + " refused: "@ + e@,
                Tried::TimedOut => final(self).slow == old(self).slow + 1 && final(self).last@
                    == node@ + " timed out"@,
            },
    {
        match tried {
            Tried::Answered => {},
            Tried::Refused(e) => {
                self.last = node.to_string().concat(" refused: ").concat(e.as_str());
            },
            Tried::TimedOut => {
                self.slow = self.slow + 1;
                self.last = node.to_string().concat(" timed out");
            },
        }
    }
}

/// The places of the ranking that a walk visits whose every try is refused.
pub open spec fn visited(order: Seq<usize>, full: Seq<bool>, at: int) -> Seq<int>
    decreases order.len() - at,
{
    if at < 0 {
        Seq::empty()
    } else {
        match next_with_room(order, full, at) {
            Some(k) => if at <= k < order.len() {
                seq![k] + visited(order, full, k + 1)
            } else {
                Seq::empty()
            },
            None => Seq::empty(),
        }
    }
}

proof fn lemma_next_with_room(order: Seq<usize>, full: Seq<bool>, at: int, k: int)
    requires
        0 <= at <= k < order.len(),
        !full[order[k] as int],
    ensures
        next_with_room(order, full, at) matches Some(j) && at <= j <= k && !full[order[j] as int],
    decreases k - at,
{
    if at < k && full[order[at] as int] {
        lemma_next_with_room(order, full, at + 1, k);
    }
}

/// Refusals are free: however many replicas are dead, a walk comes to every one that
/// has room.
pub proof fn law_a_walk_gets_past_the_dead(order: Seq<usize>, full: Seq<bool>, at: int, k: int)
    requires
        0 <= at <= k < order.len(),
        !full[order[k] as int],
    ensures
        visited(order, full, at).contains(k),
    decreases order.len() - at,
{
    lemma_next_with_room(order, full, at, k);
    let j = next_with_room(order, full, at)->0;
    let rest = visited(order, full, j + 1);
    let all = seq![j] + rest;
    if j == k {
        assert(all[0] == k);
    } else {
        law_a_walk_gets_past_the_dead(order, full, j + 1, k);
        let m = choose|m: int| 0 <= m < rest.len() && rest[m] == k;
        assert(all[m + 1] == k);
    }
}

// ---------------------------------------------------------------- answers --

/// The app that a `Host` header names: without its port, in small letters.
pub fn host_of_header(header: Option<&str>) -> (out: String)
    ensures
        header matches Some(h) ==> out@ == lower_of(before_char_of(h@, ':')),
        header is None ==> out@ == Seq::<char>::empty(),
{
    match header {
        Some(h) => {
            let bare = before_char(h, ':');
            lower(bare.as_str())
        },
        None => String::new(),
    }
}

/// What the door does with a request once it knows the replicas.
#[derive(Debug, PartialEq, Eq)]
pub enum Gate {
    /// Nothing is placed: ask for a replica first.
    Activate,
    /// Every replica is full: refuse now, and count the refusal.
    Shed,
    /// Walk the ranking.
    Walk,
}

/// What the door does with a request for replicas that are full as listed.
pub open spec fn gate_of(full: Seq<bool>) -> Gate {
    if full.len() == 0 {
        Gate::Activate
    } else if forall|i: int| 0 <= i < full.len() ==> full[i] {
        Gate::Shed
    } else {
        Gate::Walk
    }
}

/// What the door does with a request: one full replica never costs the app a
/// refusal while another has room.
pub fn gate(full: &Vec<bool>) -> (g: Gate)
    ensures
        g == gate_of(full@),
{
    if full.len() == 0 {
        return Gate::Activate;
    }
    let mut i: usize = 0;
    while i < full.len()
        invariant
            i <= full.len(),
            forall|k: int| 0 <= k < i ==> full[k],
        decreases full.len() - i,
    {
        if !full[i] {
            return Gate::Walk;
        }
        i = i + 1;
    }
    Gate::Shed
}

/// The answer where nothing could be placed.
pub fn not_placed(host: &str) -> (r: (u16, String))
    ensures
        r.0 == 503,
        r.1@ == "no replica of "@ + debug_of(host@) + " is currently placed\n"@,
{
    let h = debug(host);
    (503, "no replica of ".to_string().concat(h.as_str()).concat(" is currently placed\n"))
}

/// The answer where every replica is full.
pub fn shed(host: &str, max_inflight: usize) -> (r: (u16, String))
    ensures
        r.0 == 503,
        r.1@ == "every replica of "@ + debug_of(host@) + " is at "@ + dec_of(max_inflight as nat)
            + " in flight; shedding\n"@,
{
    let h = debug(host);
    let n = dec(max_inflight as u64);
    (
        503,
        "every replica of ".to_string().concat(h.as_str()).concat(" is at ").concat(
            n.as_str(),
        ).concat(" in flight; shedding\n"),
    )
}

/// The answer where the walk found no replica that answers.
pub fn all_failed(host: &str, last: &str) -> (r: (u16, String))
    ensures
        r.0 == 502,
        r.1@ == "every replica of "@ + debug_of(host@) + " failed; last: "@ + last@ + "\n"@,
{
    let h = debug(host);
    (
        502,
        "every replica of ".to_string().concat(h.as_str()).concat(" failed; last: ").concat(
            last,
        ).concat("\n"),
    )
}

/// Where a backend is asked.
pub fn backend_uri(address: &str, path_and_query: Option<&str>) -> (out: String)
    ensures
        path_and_query matches Some(p) ==> out@ == "http://"@ + address@ + p@,
        path_and_query is None ==> out@ == "http://"@ + address@ + "/"@,
{
    let base = "http://".to_string().concat(address);
    match path_and_query {
        Some(p) => base.concat(p),
        None => base.concat("/"),
    }
}

// ------------------------------------------------------------- activation --

/// The backend that an activation's reply names, or nothing where it names none. A
/// reply that says nothing of cores is read as one core.
pub open spec fn activated_in(reply: Tree) -> Option<BackendView> {
    match (reply.text_field("error"@), reply.text_field("node"@), reply.text_field("address"@)) {
        (None, Some(n), Some(a)) => Some(
            BackendView {
                node: n,
                address: a,
                cpus: match reply.field("cpus"@) {
                    Some(c) => match c.number() {
                        Some(v) => v as usize,
                        None => 1,
                    },
                    None => 1,
                },
            },
        ),
        _ => None,
    }
}

/// The backend that an activation's reply names.
pub fn activated(reply: &Json) -> (r: Option<Backend>)
    ensures
        r is Some <==> activated_in(reply@) is Some,
        r matches Some(b) ==> activated_in(reply@) == Some(b@),
{
    if reply.text_field("error").is_some() {
        return None;
    }
    let node = match reply.text_field("node") {
        Some(n) => n.clone(),
        None => return None,
    };
    let address = match reply.text_field("address") {
        Some(a) => a.clone(),
        None => return None,
    };
    let cpus: usize = match reply.field("cpus") {
        Some(c) => match c.number() {
            Some(v) => v as usize,
            None => 1,
        },
        None => 1,
    };
    Some(Backend { node, address, cpus })
}

/// The backend that an activation's reply names, as it came; none where it is no JSON.
pub fn activated_by(reply: &[u8]) -> (r: Option<Backend>)
    ensures
        (match r {
            Some(b) => Some(b@),
            None => None,
        }) == match json_in_bytes(reply@) {
            Some(t) => activated_in(t),
            None => None,
        },
{
    match parse_bytes(reply) {
        Some(j) => activated(&j),
        None => None,
    }
}

/// Why an activation failed, where its reply says so.
pub fn activation_error(reply: &[u8]) -> (r: Option<String>)
    ensures
        (match r {
            Some(e) => Some(e@),
            None => None,
        }) == match json_in_bytes(reply@) {
            Some(t) => t.text_field("error"@),
            None => None,
        },
{
    match parse_bytes(reply) {
        Some(j) => match j.text_field("error") {
            Some(e) => Some(e.clone()),
            None => None,
        },
        None => None,
    }
}

impl Table {
    /// The first replica of `host`, if the table has one.
    pub fn first(&self, host: &str) -> (r: Option<&Backend>)
        requires
            self.routes.wf(),
        ensures
            r is Some <==> first_of(self@, host@) is Some,
            r matches Some(b) ==> first_of(self@, host@) == Some(b@),
    {
        match self.routes.get(host) {
            Some(v) => {
                if v.len() > 0 {
                    Some(&v[0])
                } else {
                    None
                }
            },
            None => None,
        }
    }

    /// Write down a replica that was just activated, behind those that are there, so
    /// that the next request finds it.
    pub fn publish(&mut self, host: &str, b: &Backend)
        requires
            old(self).routes.wf(),
        ensures
            final(self).routes.wf(),
            final(self)@ == published(old(self)@, host@, b@),
    {
        let ghost before = self.routes@;
        let mut list: Vec<Backend> = Vec::new();
        match self.routes.get(host) {
            Some(v) => {
                let mut i: usize = 0;
                while i < v.len()
                    invariant
                        i <= v.len(),
                        backend_views(list@) == backend_views(v@).take(i as int),
                    decreases v.len() - i,
                {
                    let c = v[i].copy();
                    let ghost o = list@;
                    list.push(c);
                    proof {
                        assert(backend_views(list@) =~= backend_views(o).push(c@));
                        assert(backend_views(v@).take(i + 1) =~= backend_views(v@).take(
                            i as int,
                        ).push(c@));
                    }
                    i = i + 1;
                }
                assert(backend_views(v@).take(i as int) =~= backend_views(v@));
            },
            None => {
                assert(backend_views(list@) =~= Seq::<BackendView>::empty());
            },
        }
        let c = b.copy();
        let ghost o = list@;
        list.push(c);
        assert(backend_views(list@) =~= backend_views(o).push(c@));
        self.routes.insert(host.to_string(), list);
        assert(self@ =~= before.map_values(|v: Vec<Backend>| backend_views(v@)).insert(
            host@,
            backend_views(list@),
        ));
    }
}

/// The table with one more replica of `host`, behind those that are there.
pub open spec fn published(
    t: Map<Seq<char>, Seq<BackendView>>,
    host: Seq<char>,
    b: BackendView,
) -> Map<Seq<char>, Seq<BackendView>> {
    t.insert(
        host,
        if t.contains_key(host) {
            t[host].push(b)
        } else {
            seq![b]
        },
    )
}

/// The first replica of `host`, if the table has one.
pub open spec fn first_of(t: Map<Seq<char>, Seq<BackendView>>, host: Seq<char>) -> Option<BackendView> {
    if t.contains_key(host) && t[host].len() > 0 {
        Some(t[host][0])
    } else {
        None
    }
}

/// An activation is published, so the next request for the host finds the replica
/// and pays for no activation of its own; what other hosts have stays as it was.
pub proof fn law_a_published_replica_is_found(
    t: Map<Seq<char>, Seq<BackendView>>,
    host: Seq<char>,
    b: BackendView,
)
    ensures
        first_of(t, host) is None ==> first_of(published(t, host, b), host) == Some(b),
        first_of(t, host) is Some ==> first_of(published(t, host, b), host) == first_of(t, host),
        forall|h: Seq<char>| h != host ==> first_of(published(t, host, b), h) == first_of(t, h),
{
}

// ---------------------------------------------------------------- settings --

/// A tunable: the flag, then the file, then the default.
pub fn pick(flag: Option<u64>, file: Option<u64>, otherwise: u64) -> (r: u64)
    ensures
        flag matches Some(v) ==> r == v,
        flag is None && file is Some ==> r == file->0,
        flag is None && file is None ==> r == otherwise,
{
    match flag {
        Some(v) => v,
        None => match file {
            Some(v) => v,
            None => otherwise,
        },
    }
}

/// Seconds between reads of the inventory: what the operator set, or a third of how
/// long an entry lives; at least one.
pub open spec fn refresh_of(set: Option<u64>, inventory_ttl: u64) -> u64 {
    let v = match set {
        Some(v) => v,
        None => inventory_ttl / 3,
    };
    if v == 0 {
        1
    } else {
        v
    }
}

/// Seconds between reads of the inventory.
pub fn refresh_secs(set: Option<u64>, inventory_ttl: u64) -> (r: u64)
    ensures
        r == refresh_of(set, inventory_ttl),
{
    let v: u64 = match set {
        Some(v) => v,
        None => inventory_ttl / 3,
    };
    if v == 0 {
        1
    } else {
        v
    }
}

/// Unless the operator sets otherwise, the table is read well inside the life of
/// its entries: two reads may be lost before one expires.
pub proof fn law_the_inventory_is_read_inside_its_life(inventory_ttl: u64)
    requires
        inventory_ttl >= 3,
    ensures
        3 * refresh_of(None, inventory_ttl) <= inventory_ttl,
{
}

/// The key that a host's load is published under: a dot would end a key's part.
pub fn load_key(host: &str) -> (out: String)
    ensures
        out@ == replace_char_of(host@, '.', "_"@),
{
    replace_char(host, '.', "_")
}

/// What the door publishes of one host: what is in flight, and what was refused and
/// answered since it last said so.
pub open spec fn load_tree(host: Seq<char>, inflight: u64, shed: u64, served: u64) -> Tree {
    Tree::Object(
        seq![
            ("host"@, Tree::Text(host)),
            ("inflight"@, Tree::Unsigned(inflight)),
            ("shed"@, Tree::Unsigned(shed)),
            ("served"@, Tree::Unsigned(served)),
        ],
    )
}

/// What the door publishes of a host is read back field by field: what is in flight, what was
/// refused and what was answered are three different numbers.
pub proof fn law_the_load_is_published_field_by_field(host: Seq<char>, inflight: u64, shed: u64, served: u64)
    ensures
        load_tree(host, inflight, shed, served).field("host"@) == Some(Tree::Text(host)),
        load_tree(host, inflight, shed, served).field("inflight"@) == Some(Tree::Unsigned(inflight)),
        load_tree(host, inflight, shed, served).field("shed"@) == Some(Tree::Unsigned(shed)),
        load_tree(host, inflight, shed, served).field("served"@) == Some(Tree::Unsigned(served)),
{
    reveal_with_fuel(entry_from, 5);
    reveal_strlit("host");
    reveal_strlit("inflight");
    reveal_strlit("shed");
    reveal_strlit("served");
    assert("host"@.len() == 4);
    assert("inflight"@.len() == 8);
    assert("shed"@.len() == 4);
    assert("served"@.len() == 6);
    assert("host"@[0] != "shed"@[0]);
}

/// What the door publishes of one host.
pub fn load_json(host: &str, inflight: u64, shed: u64, served: u64) -> (j: Json)
    ensures
        j@ == load_tree(host@, inflight, shed, served),
        j@.field("host"@) == Some(Tree::Text(host@)),
        j@.field("inflight"@) == Some(Tree::Unsigned(inflight)),
        j@.field("shed"@) == Some(Tree::Unsigned(shed)),
        j@.field("served"@) == Some(Tree::Unsigned(served)),
{
    proof {
        law_the_load_is_published_field_by_field(host@, inflight, shed, served);
    }
    let mut es = no_entries();
    put(&mut es, "host", text(host));
    put(&mut es, "inflight", Json::Unsigned(inflight));
    put(&mut es, "shed", Json::Unsigned(shed));
    put(&mut es, "served", Json::Unsigned(served));
    assert(entry_trees(es@) =~= load_tree(host@, inflight, shed, served)->Object_0);
    object(es)
}

// --------------------------------------------------------------------- laws --

/// A replica is full exactly where there is a bound and it has as much in flight as the bound
/// allows for all its processors. Without a bound nothing is ever full.
pub proof fn law_when_a_replica_is_full(cpus: usize, load: u64, bound: usize)
    ensures
        bound == 0 ==> !full(cpus, load, bound),
        bound > 0 ==> (full(cpus, load, bound) <==> load >= bound * cpus),
        full(cpus, load, bound) && load < u64::MAX ==> full(cpus, (load + 1) as u64, bound),
{
}

/// What becomes of a request: one that no replica serves wakes one; one that every replica is
/// too full for is shed; any other is walked.
pub proof fn law_what_becomes_of_a_request(full: Seq<bool>)
    ensures
        gate_of(full) == Gate::Activate <==> full.len() == 0,
        gate_of(full) == Gate::Walk <==> exists|i: int| 0 <= i < full.len() && !#[trigger] full[i],
{
}

/// The next stop is the first replica in the order that has room; there is none exactly where
/// all that are left are full.
pub proof fn law_the_next_stop_has_room(order: Seq<usize>, full: Seq<bool>, at: int)
    requires
        0 <= at <= order.len(),
    ensures
        next_with_room(order, full, at) matches Some(k) ==> at <= k < order.len()
            && !full[order[k] as int] && forall|j: int| at <= j < k ==> full[#[trigger] order[j] as int],
        next_with_room(order, full, at) is None <==> forall|j: int|
            at <= j < order.len() ==> full[#[trigger] order[j] as int],
    decreases order.len() - at,
{
    if at < order.len() && full[order[at] as int] {
        law_the_next_stop_has_room(order, full, at + 1);
    }
}

/// Under round robin the replicas follow each other from the start on; the load has no say.
pub proof fn law_round_robin_ignores_the_load(
    p: Seq<usize>,
    loads: Seq<u64>,
    others: Seq<u64>,
    start: int,
)
    requires
        ranking(p, loads, Balance::RoundRobin, start),
        others.len() == loads.len(),
    ensures
        ranking(p, others, Balance::RoundRobin, start),
{
}

/// A replica that was woken is the node and the address that the answer names, with as many
/// processors as it says, or one; an answer that tells of an error woke nothing.
pub proof fn law_a_woken_replica_is_the_one_named(reply: Tree)
    ensures
        activated_in(reply) is Some <==> reply.text_field("error"@) is None && reply.text_field(
            "node"@,
        ) is Some && reply.text_field("address"@) is Some,
        activated_in(reply) matches Some(b) ==> reply.text_field("node"@) == Some(b.node)
            && reply.text_field("address"@) == Some(b.address) && (reply.field("cpus"@) matches Some(
            Tree::Unsigned(n),
        ) ==> b.cpus == n as usize) && (!(reply.field("cpus"@) matches Some(Tree::Unsigned(_)))
            ==> b.cpus == 1),
{
}

/// The table is read as often as the operator set, else three times in the life of an entry,
/// and at least once a second.
pub proof fn law_how_often_the_table_is_read(set: Option<u64>, inventory_ttl: u64)
    ensures
        refresh_of(set, inventory_ttl) >= 1,
        set is Some && set->0 >= 1 ==> refresh_of(set, inventory_ttl) == set->0,
        set is None && inventory_ttl >= 3 ==> refresh_of(set, inventory_ttl) == inventory_ttl / 3,
{
}

} // verus!

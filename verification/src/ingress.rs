//! The door into the lattice: which nodes answer to a host, which of them a request
//! goes to, and what the caller is told where none of them can answer.

use vstd::prelude::*;
use vstd::string::*;

use crate::number::{dec, dec_of};
use crate::order::{before, increasing, lemma_permutation_hits, lemma_sorted_set_is_one, ranks_texts, sorted_set, stable_order_texts};
use crate::text::{holds, is_among, lemma_assoc, lemma_holds_end, lemma_holds_itself, lemma_holds_longer, lower, lower_of, same, strs};
use crate::text_map::TextMap;

verus! {

/// How many reads in a row without a route it takes before the door believes that
/// the fleet has nothing to serve.
pub const EMPTY_READS_BEFORE_BELIEVING: u32 = 3;

/// How to choose among the replicas of an app.
#[derive(Debug, Clone, Copy, PartialEq, Eq, Structural)]
pub enum Balance {
    RoundRobin,
    LeastOutstanding,
}

/// What to do with a routing table that was just read.
#[derive(Debug, Clone, Copy, PartialEq, Eq, Structural)]
pub enum Verdict {
    /// Take it: it has routes, or there were none to lose.
    Adopt,
    /// It is empty and there are routes to lose: keep them and wait.
    RideOut,
    /// It has been empty for long enough to be true.
    Believe,
}

/// What to do with a table after `streak` empty reads in a row.
pub open spec fn verdict_of(had_routes: bool, next_is_empty: bool, streak: int) -> Verdict {
    if !next_is_empty || !had_routes {
        Verdict::Adopt
    } else if streak + 1 < EMPTY_READS_BEFORE_BELIEVING {
        Verdict::RideOut
    } else {
        Verdict::Believe
    }
}

/// What to do with a table that was just read.
pub fn verdict(had_routes: bool, next_is_empty: bool, streak_before: u32) -> (v: Verdict)
    requires
        streak_before < u32::MAX,
    ensures
        v == verdict_of(had_routes, next_is_empty, streak_before as int),
{
    if !next_is_empty {
        return Verdict::Adopt;
    }
    if !had_routes {
        return Verdict::Adopt;
    }
    if streak_before + 1 < EMPTY_READS_BEFORE_BELIEVING {
        Verdict::RideOut
    } else {
        Verdict::Believe
    }
}

/// What one read does to the door: the verdict, the streak after it, and whether
/// the table is replaced.
pub open spec fn refreshed(had_routes: bool, next_is_empty: bool, streak: int) -> (Verdict, int, bool) {
    let v = verdict_of(had_routes, next_is_empty, streak);
    match v {
        Verdict::Adopt => (v, 0, true),
        Verdict::RideOut => (v, streak + 1, false),
        Verdict::Believe => (v, streak + 1, true),
    }
}

/// What one read does to the door.
pub fn refresh(had_routes: bool, next_is_empty: bool, streak: u32) -> (r: (Verdict, u32, bool))
    requires
        streak < u32::MAX,
    ensures
        (r.0, r.1 as int, r.2) == refreshed(had_routes, next_is_empty, streak as int),
{
    match verdict(had_routes, next_is_empty, streak) {
        Verdict::Adopt => (Verdict::Adopt, 0, true),
        Verdict::RideOut => (Verdict::RideOut, streak + 1, false),
        Verdict::Believe => (Verdict::Believe, streak + 1, true),
    }
}

/// The door after reading `reads`, each `true` where it held no route: whether it
/// has routes, and the streak.
pub open spec fn after_reads(had_routes: bool, streak: int, reads: Seq<bool>) -> (bool, int)
    decreases reads.len(),
{
    if reads.len() == 0 {
        (had_routes, streak)
    } else {
        let (h, s) = after_reads(had_routes, streak, reads.drop_last());
        let (_, t, replaced) = refreshed(h, reads.last(), s);
        (
            if replaced {
                !reads.last()
            } else {
                h
            },
            t,
        )
    }
}

/// A blink does not empty a working table: with a fresh streak, fewer empty reads
/// than the limit leave the routes in place, and that many take them away.
pub proof fn law_only_a_lasting_gap_empties_the_table(reads: Seq<bool>)
    requires
        forall|i: int| 0 <= i < reads.len() ==> reads[i],
    ensures
        reads.len() < EMPTY_READS_BEFORE_BELIEVING ==> after_reads(true, 0, reads) == (
            true,
            reads.len() as int,
        ),
        reads.len() == EMPTY_READS_BEFORE_BELIEVING ==> !after_reads(true, 0, reads).0,
    decreases reads.len(),
{
    if reads.len() > 0 {
        law_only_a_lasting_gap_empties_the_table(reads.drop_last());
    }
}

/// A read that holds routes is always taken, and clears the streak.
pub proof fn law_a_good_read_is_always_adopted(had_routes: bool, streak: int)
    ensures
        refreshed(had_routes, false, streak) == (Verdict::Adopt, 0int, true),
{
}

/// A door that never had routes protects nothing: every read is taken.
pub proof fn law_nothing_to_lose_means_nothing_to_defend(next_is_empty: bool, streak: int)
    ensures
        refreshed(false, next_is_empty, streak) == (Verdict::Adopt, 0int, true),
{
}

// --------------------------------------------------------------- the table --

/// One instance that a node runs.
#[derive(Debug, PartialEq, Eq)]
pub struct RunningInstance {
    pub tenant: String,
    pub app: String,
    pub component: String,
    pub digest: String,
    pub count: u32,
    /// The `Host` header that it answers to.
    pub ingress_host: Option<String>,
}

/// What one node advertises.
#[derive(Debug, PartialEq, Eq)]
pub struct NodeInventory {
    pub node: String,
    pub address: String,
    pub cpus: usize,
    pub instances: Vec<RunningInstance>,
}

/// A node that answers to a host.
#[derive(Debug, PartialEq, Eq)]
pub struct Backend {
    pub node: String,
    pub address: String,
    /// Cores that the node advertised: the bound on what it carries is per core.
    pub cpus: usize,
}

/// What a backend says.
pub struct BackendView {
    pub node: Seq<char>,
    pub address: Seq<char>,
    pub cpus: usize,
}

impl View for Backend {
    type V = BackendView;

    open spec fn view(&self) -> BackendView {
        BackendView { node: self.node@, address: self.address@, cpus: self.cpus }
    }
}

impl Backend {
    /// A copy of this backend.
    pub fn copy(&self) -> (b: Backend)
        ensures
            b@ == self@,
    {
        Backend { node: self.node.clone(), address: self.address.clone(), cpus: self.cpus }
    }
}

/// The views of a list of backends.
pub open spec fn backend_views(v: Seq<Backend>) -> Seq<BackendView> {
    v.map_values(|b: Backend| b@)
}

/// The node names of a list of backends.
pub open spec fn node_names(v: Seq<BackendView>) -> Seq<Seq<char>> {
    v.map_values(|b: BackendView| b.node)
}

/// The host that an instance answers to, in small letters.
pub open spec fn instance_host(i: RunningInstance) -> Option<Seq<char>> {
    match i.ingress_host {
        Some(h) => if h@.len() > 0 {
            Some(lower_of(h@))
        } else {
            None
        },
        None => None,
    }
}

/// The node can be reached and runs an instance that answers to `host`.
pub open spec fn answers(n: NodeInventory, host: Seq<char>) -> bool {
    n.address@.len() > 0 && exists|i: int|
        0 <= i < n.instances@.len() && instance_host(#[trigger] n.instances@[i]) == Some(host)
}

/// The backend that a node makes; a node without cores counts as one with one.
pub open spec fn backend_of(n: NodeInventory) -> BackendView {
    BackendView {
        node: n.node@,
        address: n.address@,
        cpus: if n.cpus == 0 {
            1
        } else {
            n.cpus
        },
    }
}

/// The first of the nodes that has this name and answers to `host`, looked for from
/// `i` on.
pub open spec fn first_answering(
    inv: Seq<NodeInventory>,
    name: Seq<char>,
    host: Seq<char>,
    i: int,
) -> Option<NodeInventory>
    decreases inv.len() - i,
{
    if i < 0 || i >= inv.len() {
        None
    } else if inv[i].node@ == name && answers(inv[i], host) {
        Some(inv[i])
    } else {
        first_answering(inv, name, host, i + 1)
    }
}

/// `bs` are the backends of `host`: one for each name that a node which answers to
/// it carries, in the order of the names.
pub open spec fn backends_right(
    bs: Seq<BackendView>,
    inv: Seq<NodeInventory>,
    host: Seq<char>,
) -> bool {
    &&& increasing(node_names(bs))
    &&& forall|k: int|
        0 <= k < inv.len() && answers(#[trigger] inv[k], host) ==> node_names(bs).contains(
            inv[k].node@,
        )
    &&& forall|b: int|
        0 <= b < bs.len() ==> first_answering(inv, (#[trigger] bs[b]).node, host, 0) is Some
            && bs[b] == backend_of(first_answering(inv, bs[b].node, host, 0)->0)
}

/// Some node answers to `host`.
pub open spec fn routed(inv: Seq<NodeInventory>, host: Seq<char>) -> bool {
    exists|k: int| 0 <= k < inv.len() && answers(#[trigger] inv[k], host)
}

/// Which nodes answer to a `Host` header.
#[derive(Debug, PartialEq, Eq)]
pub struct Table {
    pub routes: TextMap<Vec<Backend>>,
}

impl View for Table {
    type V = Map<Seq<char>, Seq<BackendView>>;

    open spec fn view(&self) -> Map<Seq<char>, Seq<BackendView>> {
        self.routes@.map_values(|v: Vec<Backend>| backend_views(v@))
    }
}

/// The table is what the nodes advertise: a route for each host that some node
/// answers to, and no other.
pub open spec fn table_right(t: Map<Seq<char>, Seq<BackendView>>, inv: Seq<NodeInventory>) -> bool {
    &&& forall|h: Seq<char>| #[trigger] t.contains_key(h) <==> routed(inv, h)
    &&& forall|h: Seq<char>| t.contains_key(h) ==> backends_right(#[trigger] t[h], inv, h)
}

fn answers_to(n: &NodeInventory, host: &str) -> (r: bool)
    ensures
        r == answers(*n, host@),
{
    if n.address.as_str().is_empty() {
        return false;
    }
    let mut i: usize = 0;
    while i < n.instances.len()
        invariant
            i <= n.instances.len(),
            n.address@.len() > 0,
            forall|k: int| 0 <= k < i ==> instance_host(#[trigger] n.instances@[k]) != Some(host@),
        decreases n.instances.len() - i,
    {
        match &n.instances[i].ingress_host {
            Some(h) => {
                if !h.as_str().is_empty() {
                    let l = lower(h.as_str());
                    if same(l.as_str(), host) {
                        assert(instance_host(n.instances@[i as int]) == Some(host@));
                        return true;
                    }
                }
            },
            None => {},
        }
        i = i + 1;
    }
    false
}

proof fn lemma_first_answering(inv: Seq<NodeInventory>, name: Seq<char>, host: Seq<char>, i: int, k: int)
    requires
        0 <= i <= k < inv.len(),
        inv[k].node@ == name,
        answers(inv[k], host),
        forall|m: int| i <= m < k ==> !((#[trigger] inv[m]).node@ == name && answers(inv[m], host)),
    ensures
        first_answering(inv, name, host, i) == Some(inv[k]),
    decreases k - i,
{
    if i < k {
        lemma_first_answering(inv, name, host, i + 1, k);
    }
}

fn backends_for(inv: &Vec<NodeInventory>, host: &str) -> (out: Vec<Backend>)
    ensures
        backends_right(backend_views(out@), inv@, host@),
{
    let mut names: Vec<String> = Vec::new();
    let mut found: Vec<Backend> = Vec::new();
    let mut i: usize = 0;
    while i < inv.len()
        invariant
            i <= inv.len(),
            names.len() == found.len(),
            forall|b: int| 0 <= b < found.len() ==> (#[trigger] found[b])@.node == names[b]@,
            forall|a: int, b: int| 0 <= a < b < names.len() ==> names[a]@ != names[b]@,
            forall|k: int|
                0 <= k < i && answers(#[trigger] inv[k], host@) ==> strs(names@).contains(
                    inv[k].node@,
                ),
            forall|b: int|
                0 <= b < found.len() ==> first_answering(
                    inv@,
                    (#[trigger] found[b])@.node,
                    host@,
                    0,
                ) is Some && found[b]@ == backend_of(
                    first_answering(inv@, found[b]@.node, host@, 0)->0,
                ),
        decreases inv.len() - i,
    {
        let n = &inv[i];
        let ghost ns = names@;
        if answers_to(n, host) {
            if !is_among(&names, n.node.as_str()) {
                let b = Backend {
                    node: n.node.clone(),
                    address: n.address.clone(),
                    cpus: if n.cpus == 0 {
                        1
                    } else {
                        n.cpus
                    },
                };
                proof {
                    assert forall|m: int| 0 <= m < i implies !((#[trigger] inv[m]).node@ == n.node@
                        && answers(inv[m], host@)) by {
                        if inv[m].node@ == n.node@ && answers(inv[m], host@) {
                            assert(strs(ns).contains(inv[m].node@));
                        }
                    }
                    lemma_first_answering(inv@, n.node@, host@, 0, i as int);
                    assert forall|a: int| 0 <= a < ns.len() implies ns[a]@ != n.node@ by {
                        assert(strs(ns)[a] == ns[a]@);
                    }
                }
                found.push(b);
                names.push(n.node.clone());
            }
        }
        proof {
            assert forall|k: int| 0 <= k < i + 1 && answers(#[trigger] inv[k], host@) implies strs(
                names@,
            ).contains(inv[k].node@) by {
                if k < i {
                    let w = choose|w: int| 0 <= w < ns.len() && strs(ns)[w] == inv[k].node@;
                    assert(names[w]@ == inv[k].node@);
                    assert(strs(names@)[w] == inv[k].node@);
                } else if names@ != ns {
                    assert(strs(names@)[ns.len() as int] == inv[k].node@);
                }
            }
        }
        i = i + 1;
    }
    let p = stable_order_texts(&names);
    let ghost ks = strs(names@);
    let mut out: Vec<Backend> = Vec::new();
    let mut j: usize = 0;
    while j < p.len()
        invariant
            j <= p.len(),
            out.len() == j,
            names.len() == found.len(),
            ks == strs(names@),
            ranks_texts(p@, ks),
            forall|b: int| 0 <= b < j ==> (#[trigger] out[b])@ == found[p[b] as int]@,
        decreases p.len() - j,
    {
        out.push(found[p[j]].copy());
        j = j + 1;
    }
    proof {
        let bs = backend_views(out@);
        let nn = node_names(bs);
        assert forall|b: int| 0 <= b < nn.len() implies #[trigger] nn[b] == ks[p[b] as int] by {
            assert(out[b]@ == found[p[b] as int]@);
            assert(found[p[b] as int]@.node == names[p[b] as int]@);
        }
        assert forall|a: int, b: int| 0 <= a < b < nn.len() implies before(nn[a], nn[b]) by {
            assert(nn[a] == ks[p[a] as int] && nn[b] == ks[p[b] as int]);
            if ks[p[a] as int] == ks[p[b] as int] {
                assert(p[a] < p[b]);
                assert(names[p[a] as int]@ != names[p[b] as int]@);
            }
        }
        assert forall|k: int| 0 <= k < inv.len() && answers(
            #[trigger] inv[k],
            host@,
        ) implies nn.contains(inv[k].node@) by {
            let w = choose|w: int| 0 <= w < ks.len() && ks[w] == inv[k].node@;
            lemma_permutation_hits(p@, ks.len() as int, w);
            let a = choose|a: int| 0 <= a < p.len() && p[a] == w;
            assert(nn[a] == inv[k].node@);
        }
        assert forall|b: int| 0 <= b < bs.len() implies first_answering(
            inv@,
            (#[trigger] bs[b]).node,
            host@,
            0,
        ) is Some && bs[b] == backend_of(first_answering(inv@, bs[b].node, host@, 0)->0) by {
            assert(out[b]@ == found[p[b] as int]@);
        }
    }
    out
}

/// The hosts of the first `j` instances of a node.
spec fn instance_hosts(n: NodeInventory, j: int) -> Seq<Seq<char>>
    decreases j,
{
    if j <= 0 {
        Seq::empty()
    } else {
        match instance_host(n.instances@[j - 1]) {
            Some(h) => instance_hosts(n, j - 1).push(h),
            None => instance_hosts(n, j - 1),
        }
    }
}

/// The hosts of the first `i` nodes that can be reached.
spec fn node_hosts(inv: Seq<NodeInventory>, i: int) -> Seq<Seq<char>>
    decreases i,
{
    if i <= 0 {
        Seq::empty()
    } else if inv[i - 1].address@.len() > 0 {
        node_hosts(inv, i - 1) + instance_hosts(inv[i - 1], inv[i - 1].instances@.len() as int)
    } else {
        node_hosts(inv, i - 1)
    }
}

proof fn lemma_instance_hosts(n: NodeInventory, j: int, h: Seq<char>)
    requires
        0 <= j <= n.instances@.len(),
    ensures
        instance_hosts(n, j).contains(h) <==> exists|m: int|
            0 <= m < j && instance_host(#[trigger] n.instances@[m]) == Some(h),
    decreases j,
{
    if j > 0 {
        lemma_instance_hosts(n, j - 1, h);
        let ih = instance_host(n.instances@[j - 1]);
        match ih {
            Some(x) => {
                vstd::seq_lib::lemma_seq_contains_after_push(instance_hosts(n, j - 1), x, h);
            },
            None => {},
        }
        if instance_hosts(n, j - 1).contains(h) {
            let m = choose|m: int|
                0 <= m < j - 1 && instance_host(#[trigger] n.instances@[m]) == Some(h);
            assert(instance_host(n.instances@[m]) == Some(h));
        }
        if ih == Some(h) {
            assert(instance_host(n.instances@[j - 1]) == Some(h));
        }
    }
}

proof fn lemma_node_hosts(inv: Seq<NodeInventory>, i: int, h: Seq<char>)
    requires
        0 <= i <= inv.len(),
    ensures
        node_hosts(inv, i).contains(h) <==> exists|k: int|
            0 <= k < i && answers(#[trigger] inv[k], h),
    decreases i,
{
    if i > 0 {
        let n = inv[i - 1];
        let own = instance_hosts(n, n.instances@.len() as int);
        lemma_node_hosts(inv, i - 1, h);
        lemma_instance_hosts(n, n.instances@.len() as int, h);
        vstd::seq_lib::lemma_seq_concat_contains_all_elements(node_hosts(inv, i - 1), own, h);
        if node_hosts(inv, i - 1).contains(h) {
            let k = choose|k: int| 0 <= k < i - 1 && answers(#[trigger] inv[k], h);
            assert(answers(inv[k], h));
        }
        if answers(n, h) {
            assert(answers(inv[i - 1], h));
        }
        if exists|k: int| 0 <= k < i && answers(#[trigger] inv[k], h) {
            let k = choose|k: int| 0 <= k < i && answers(#[trigger] inv[k], h);
            if k < i - 1 {
                assert(node_hosts(inv, i - 1).contains(h));
            }
        }
    }
}

/// The hosts that the nodes that can be reached answer to.
fn hosts_of(inv: &Vec<NodeInventory>) -> (out: Vec<String>)
    ensures
        increasing(strs(out@)),
        forall|h: Seq<char>| strs(out@).contains(h) <==> routed(inv@, h),
{
    let mut all: Vec<String> = Vec::new();
    let mut i: usize = 0;
    assert(strs(all@) =~= node_hosts(inv@, 0));
    while i < inv.len()
        invariant
            i <= inv.len(),
            strs(all@) == node_hosts(inv@, i as int),
        decreases inv.len() - i,
    {
        let n = &inv[i];
        let ghost start = strs(all@);
        if !n.address.as_str().is_empty() {
            let mut j: usize = 0;
            assert(strs(all@) =~= start + instance_hosts(*n, 0));
            while j < n.instances.len()
                invariant
                    j <= n.instances.len(),
                    strs(all@) == start + instance_hosts(*n, j as int),
                decreases n.instances.len() - j,
            {
                let ghost o = all@;
                match &n.instances[j].ingress_host {
                    Some(h) => {
                        if !h.as_str().is_empty() {
                            let l = lower(h.as_str());
                            all.push(l);
                            assert(strs(all@) =~= strs(o).push(l@));
                            assert(strs(all@) =~= start + instance_hosts(*n, j + 1));
                        }
                    },
                    None => {},
                }
                j = j + 1;
            }
        }
        i = i + 1;
    }
    let out = sorted_set(&all);
    proof {
        assert forall|h: Seq<char>| strs(out@).contains(h) <==> routed(inv@, h) by {
            lemma_node_hosts(inv@, i as int, h);
            assert(strs(out@).contains(h) <==> strs(all@).contains(h));
        }
    }
    out
}

/// Build the table from what the nodes themselves advertise. A node with no address
/// is skipped; a node with two instances of one app is one backend; and the backends
/// stand in the order of their names, so that the rotation survives a refresh.
pub fn table_of(inventory: &Vec<NodeInventory>) -> (t: Table)
    ensures
        t.routes.wf(),
        table_right(t@, inventory@),
{
    let hosts = hosts_of(inventory);
    let ghost hs = strs(hosts@);
    let mut t = Table { routes: TextMap::new() };
    let mut i: usize = 0;
    while i < hosts.len()
        invariant
            i <= hosts.len(),
            hs == strs(hosts@),
            t.routes.wf(),
            forall|h: Seq<char>| #[trigger] t@.contains_key(h) <==> hs.take(i as int).contains(h),
            forall|h: Seq<char>| t@.contains_key(h) ==> backends_right(#[trigger] t@[h], inventory@, h),
        decreases hosts.len() - i,
    {
        let bs = backends_for(inventory, hosts[i].as_str());
        let ghost m = t@;
        let ghost h0 = hosts[i as int]@;
        t.routes.insert(hosts[i].clone(), bs);
        proof {
            assert(t@ =~= m.insert(h0, backend_views(bs@)));
            assert(hs.take(i + 1) =~= hs.take(i as int).push(h0));
            assert forall|h: Seq<char>| #[trigger] t@.contains_key(h) <==> hs.take(i + 1).contains(
                h,
            ) by {
                vstd::seq_lib::lemma_seq_contains_after_push(hs.take(i as int), h0, h);
                assert(m.contains_key(h) <==> hs.take(i as int).contains(h));
            }
        }
        i = i + 1;
    }
    assert(hs.take(i as int) =~= hs);
    t
}

/// Two tables built from the same nodes are the same, whatever the order in which
/// the nodes were listed.
pub proof fn law_the_table_ignores_the_order_of_the_inventory(
    a: Seq<NodeInventory>,
    b: Seq<NodeInventory>,
    s: Map<Seq<char>, Seq<BackendView>>,
    t: Map<Seq<char>, Seq<BackendView>>,
)
    requires
        table_right(s, a),
        table_right(t, b),
        forall|n: NodeInventory| a.contains(n) <==> b.contains(n),
        forall|i: int, j: int| 0 <= i < j < a.len() ==> a[i].node@ != a[j].node@,
        forall|i: int, j: int| 0 <= i < j < b.len() ==> b[i].node@ != b[j].node@,
    ensures
        s == t,
{
    assert forall|h: Seq<char>| #[trigger] s.contains_key(h) <==> t.contains_key(h) by {
        lemma_routed_in(a, b, h);
        lemma_routed_in(b, a, h);
        assert(s.contains_key(h) <==> routed(a, h));
        assert(t.contains_key(h) <==> routed(b, h));
    }
    assert forall|h: Seq<char>| s.contains_key(h) implies s[h] == t[h] by {
        assert(t.contains_key(h));
        let x = s[h];
        let y = t[h];
        lemma_names_in(a, b, x, y, h);
        lemma_names_in(b, a, y, x, h);
        lemma_sorted_set_is_one(node_names(x), node_names(y));
        assert forall|i: int| 0 <= i < x.len() implies x[i] == y[i] by {
            assert(node_names(x)[i] == node_names(y)[i]);
            let name = x[i].node;
            lemma_first_is(a, name, h, 0);
            lemma_first_is(b, name, h, 0);
            let n = first_answering(a, name, h, 0)->0;
            let m = first_answering(b, name, h, 0)->0;
            assert(b.contains(n));
            let j = choose|j: int| 0 <= j < b.len() && b[j] == n;
            let k = choose|k: int| 0 <= k < b.len() && b[k] == m;
            assert(b[j].node@ == b[k].node@);
            assert(j == k);
        }
        assert(node_names(x).len() == node_names(y).len());
        assert(x =~= y);
    }
    assert(s =~= t);
}

proof fn lemma_routed_in(a: Seq<NodeInventory>, b: Seq<NodeInventory>, h: Seq<char>)
    requires
        forall|n: NodeInventory| a.contains(n) <==> b.contains(n),
    ensures
        routed(a, h) ==> routed(b, h),
{
    if routed(a, h) {
        let k = choose|k: int| 0 <= k < a.len() && answers(#[trigger] a[k], h);
        assert(a.contains(a[k]));
        let j = choose|j: int| 0 <= j < b.len() && b[j] == a[k];
        assert(answers(b[j], h));
    }
}

proof fn lemma_first_is(inv: Seq<NodeInventory>, name: Seq<char>, h: Seq<char>, i: int)
    requires
        0 <= i,
    ensures
        first_answering(inv, name, h, i) matches Some(n) ==> inv.contains(n) && n.node@ == name
            && answers(n, h),
    decreases inv.len() - i,
{
    if i < inv.len() {
        if inv[i].node@ == name && answers(inv[i], h) {
            assert(inv.contains(inv[i]));
        } else {
            lemma_first_is(inv, name, h, i + 1);
        }
    }
}

proof fn lemma_names_in(
    a: Seq<NodeInventory>,
    b: Seq<NodeInventory>,
    x: Seq<BackendView>,
    y: Seq<BackendView>,
    h: Seq<char>,
)
    requires
        backends_right(x, a, h),
        backends_right(y, b, h),
        forall|n: NodeInventory| a.contains(n) <==> b.contains(n),
    ensures
        forall|t: Seq<char>| node_names(x).contains(t) ==> node_names(y).contains(t),
{
    assert forall|t: Seq<char>| node_names(x).contains(t) implies node_names(y).contains(t) by {
        let i = choose|i: int| 0 <= i < node_names(x).len() && node_names(x)[i] == t;
        assert(x[i].node == t);
        lemma_first_is(a, t, h, 0);
        let n = first_answering(a, t, h, 0)->0;
        assert(b.contains(n));
        let k = choose|k: int| 0 <= k < b.len() && b[k] == n;
        assert(answers(b[k], h));
    }
}

/// How many replicas the nodes report.
pub open spec fn instances_of(inventory: Seq<NodeInventory>) -> nat
    decreases inventory.len(),
{
    if inventory.len() == 0 {
        0
    } else {
        instances_of(inventory.drop_last()) + inventory.last().instances@.len()
    }
}

/// A replica is reached under a host.
pub open spec fn hosted(i: RunningInstance) -> bool {
    i.ingress_host matches Some(h) && h@.len() > 0
}

/// How many of some replicas are reached under a host.
pub open spec fn hosted_among(rs: Seq<RunningInstance>) -> nat
    decreases rs.len(),
{
    if rs.len() == 0 {
        0
    } else {
        hosted_among(rs.drop_last()) + if hosted(rs.last()) {
            1nat
        } else {
            0nat
        }
    }
}

/// How many replicas on the nodes are reached under a host.
pub open spec fn hosted_of(inventory: Seq<NodeInventory>) -> nat
    decreases inventory.len(),
{
    if inventory.len() == 0 {
        0
    } else {
        hosted_of(inventory.drop_last()) + hosted_among(inventory.last().instances@)
    }
}

/// How many nodes say where they are reached.
pub open spec fn addressed_of(inventory: Seq<NodeInventory>) -> nat
    decreases inventory.len(),
{
    if inventory.len() == 0 {
        0
    } else {
        addressed_of(inventory.drop_last()) + if inventory.last().address@.len() > 0 {
            1nat
        } else {
            0nat
        }
    }
}

/// What a read of the fleet holds, in numbers: the nodes, those with an address, the
/// replicas, and those reached under a host.
#[derive(Debug, Clone, Copy, PartialEq, Eq)]
pub struct Census {
    pub nodes: u64,
    pub addressed: u64,
    pub instances: u64,
    pub hosted: u64,
}

proof fn lemma_census_grows(inventory: Seq<NodeInventory>, i: int)
    requires
        0 <= i <= inventory.len(),
    ensures
        instances_of(inventory.take(i)) <= instances_of(inventory),
    decreases inventory.len(),
{
    if i < inventory.len() {
        lemma_census_grows(inventory.drop_last(), i);
        assert(inventory.drop_last().take(i) =~= inventory.take(i));
    } else {
        assert(inventory.take(i) =~= inventory);
    }
}

fn count_hosted(rs: &Vec<RunningInstance>) -> (n: u64)
    ensures
        n == hosted_among(rs@),
        n <= rs@.len(),
{
    let mut n: u64 = 0;
    let mut k: usize = 0;
    assert(rs@.take(0) =~= Seq::empty());
    while k < rs.len()
        invariant
            k <= rs.len(),
            n == hosted_among(rs@.take(k as int)),
            n <= k,
        decreases rs.len() - k,
    {
        assert(rs@.take(k + 1).drop_last() =~= rs@.take(k as int));
        if let Some(h) = &rs[k].ingress_host {
            if !h.as_str().is_empty() {
                n = n + 1;
            }
        }
        k = k + 1;
    }
    assert(rs@.take(k as int) =~= rs@);
    n
}

/// What a read of the fleet holds, in numbers.
pub fn census(inventory: &Vec<NodeInventory>) -> (c: Census)
    requires
        instances_of(inventory@) <= u64::MAX,
    ensures
        c.nodes == inventory@.len(),
        c.addressed == addressed_of(inventory@),
        c.instances == instances_of(inventory@),
        c.hosted == hosted_of(inventory@),
{
    let mut addressed: u64 = 0;
    let mut instances: u64 = 0;
    let mut hosted: u64 = 0;
    let mut i: usize = 0;
    assert(inventory@.take(0) =~= Seq::empty());
    while i < inventory.len()
        invariant
            i <= inventory.len(),
            instances_of(inventory@) <= u64::MAX,
            addressed == addressed_of(inventory@.take(i as int)),
            addressed <= i,
            instances == instances_of(inventory@.take(i as int)),
            hosted == hosted_of(inventory@.take(i as int)),
            hosted <= instances,
        decreases inventory.len() - i,
    {
        assert(inventory@.take(i + 1).drop_last() =~= inventory@.take(i as int));
        proof {
            lemma_census_grows(inventory@, i + 1);
        }
        let node = &inventory[i];
        if !node.address.as_str().is_empty() {
            addressed = addressed + 1;
        }
        hosted = hosted + count_hosted(&node.instances);
        instances = instances + node.instances.len() as u64;
        i = i + 1;
    }
    assert(inventory@.take(i as int) =~= inventory@);
    Census { nodes: inventory.len() as u64, addressed, instances, hosted }
}

/// What is noted of every read.
pub open spec fn read_line(reads: u64, c: Census, routes: u64) -> Seq<char> {
    "comp-ingress: refresh #"@ + dec_of(reads as nat) + ": "@ + dec_of(c.nodes as nat)
        + " node(s), "@ + dec_of(c.instances as nat) + " instance(s), "@ + dec_of(routes as nat)
        + " route(s)"@
}

/// What is noted of an empty read, by the verdict on it and the streak after it.
pub open spec fn verdict_line(v: Verdict, c: Census, streak: u32) -> Option<Seq<char>> {
    match v {
        Verdict::Adopt => None,
        Verdict::RideOut => Some(
            "comp-ingress: a read produced 0 routes from "@ + dec_of(c.nodes as nat)
                + " node(s) and "@ + dec_of(c.instances as nat) + " instance(s) ("@ + dec_of(
                streak as nat,
            ) + "/"@ + dec_of(EMPTY_READS_BEFORE_BELIEVING as nat)
                + ") — keeping the table it had"@,
        ),
        Verdict::Believe => Some(
            "comp-ingress: 0 routes for "@ + dec_of(EMPTY_READS_BEFORE_BELIEVING as nat)
                + " reads running — the fleet really has nothing to serve"@,
        ),
    }
}

/// What is noted where a fleet with nodes never had a route.
pub open spec fn still_line(c: Census) -> Seq<char> {
    "comp-ingress: still 0 routes from "@ + dec_of(c.nodes as nat) + " node(s) — "@ + dec_of(
        c.addressed as nat,
    ) + " with an address, "@ + dec_of(c.instances as nat) + " instance(s), "@ + dec_of(
        c.hosted as nat,
    ) + " carrying an ingress-host"@
}

/// What is noted of a read: its numbers; where it is empty, what comes of that; and,
/// where nodes have never led to a route, what they lack.
pub open spec fn refresh_notes(
    c: Census,
    reads: u64,
    routes: u64,
    had_routes: bool,
    v: Verdict,
    streak: u32,
) -> Seq<Seq<char>> {
    seq![read_line(reads, c, routes)] + (match verdict_line(v, c, streak) {
        Some(l) => seq![l],
        None => Seq::empty(),
    }) + if v != Verdict::RideOut && routes == 0 && c.nodes > 0 && !had_routes {
        seq![still_line(c)]
    } else {
        Seq::empty()
    }
}

/// What is noted of a read.
pub fn notes(
    c: &Census,
    reads: u64,
    routes: u64,
    had_routes: bool,
    v: Verdict,
    streak: u32,
) -> (out: Vec<String>)
    ensures
        strs(out@) == refresh_notes(*c, reads, routes, had_routes, v, streak),
{
    let mut out: Vec<String> = Vec::new();
    let nodes = dec(c.nodes);
    let instances = dec(c.instances);
    let limit = dec(EMPTY_READS_BEFORE_BELIEVING as u64);
    out.push(
        "comp-ingress: refresh #".to_string().concat(dec(reads).as_str()).concat(": ").concat(
            nodes.as_str(),
        ).concat(" node(s), ").concat(instances.as_str()).concat(" instance(s), ").concat(
            dec(routes).as_str(),
        ).concat(" route(s)"),
    );
    let ghost first = strs(out@);
    assert(first =~= seq![read_line(reads, *c, routes)]);
    match v {
        Verdict::Adopt => {},
        Verdict::RideOut => {
            out.push(
                "comp-ingress: a read produced 0 routes from ".to_string().concat(
                    nodes.as_str(),
                ).concat(" node(s) and ").concat(instances.as_str()).concat(" instance(s) (").concat(
                    dec(streak as u64).as_str(),
                ).concat("/").concat(limit.as_str()).concat(") — keeping the table it had"),
            );
        },
        Verdict::Believe => {
            out.push(
                "comp-ingress: 0 routes for ".to_string().concat(limit.as_str()).concat(
                    " reads running — the fleet really has nothing to serve",
                ),
            );
        },
    }
    let ghost second = strs(out@);
    assert(second =~= first + (match verdict_line(v, *c, streak) {
        Some(l) => seq![l],
        None => Seq::empty(),
    }));
    if v != Verdict::RideOut && routes == 0 && c.nodes > 0 && !had_routes {
        out.push(
            "comp-ingress: still 0 routes from ".to_string().concat(nodes.as_str()).concat(
                " node(s) — ",
            ).concat(dec(c.addressed).as_str()).concat(" with an address, ").concat(
                instances.as_str(),
            ).concat(" instance(s), ").concat(dec(c.hosted).as_str()).concat(
                " carrying an ingress-host",
            ),
        );
        assert(strs(out@) =~= second + seq![still_line(*c)]);
    }
    out
}

// --------------------------------------------------------------------- laws --

/// An empty read is believed only where there was something to lose and it came often enough
/// in a row; until then it is ridden out; everything else is adopted.
pub proof fn law_when_a_read_is_believed(had_routes: bool, next_is_empty: bool, streak: int)
    ensures
        verdict_of(had_routes, next_is_empty, streak) == Verdict::Adopt <==> !(next_is_empty
            && had_routes),
        verdict_of(had_routes, next_is_empty, streak) == Verdict::RideOut <==> next_is_empty
            && had_routes && streak + 1 < EMPTY_READS_BEFORE_BELIEVING,
        verdict_of(had_routes, next_is_empty, streak) == Verdict::Believe <==> next_is_empty
            && had_routes && streak + 1 >= EMPTY_READS_BEFORE_BELIEVING,
{
}

/// A backend is the node that answers: its name, its address, and its processors, of which
/// it has at least one.
pub proof fn law_a_backend_is_its_node(n: NodeInventory)
    ensures
        backend_of(n).node == n.node@,
        backend_of(n).address == n.address@,
        n.cpus > 0 ==> backend_of(n).cpus == n.cpus,
        n.cpus == 0 ==> backend_of(n).cpus == 1,
{
}

/// A host is routed to a node exactly where the node has an address and runs an instance that
/// asks for that host, however it is written.
pub proof fn law_who_answers_a_host(n: NodeInventory, host: Seq<char>)
    ensures
        answers(n, host) <==> n.address@.len() > 0 && exists|i: int|
            0 <= i < n.instances@.len() && (#[trigger] n.instances@[i]).ingress_host is Some
                && n.instances@[i].ingress_host->0@.len() > 0 && lower_of(
                n.instances@[i].ingress_host->0@,
            ) == host,
{
    if answers(n, host) {
        let i = choose|i: int|
            0 <= i < n.instances@.len() && instance_host(#[trigger] n.instances@[i]) == Some(host);
        assert(n.instances@[i].ingress_host is Some);
    }
    if n.address@.len() > 0 && exists|i: int|
        0 <= i < n.instances@.len() && (#[trigger] n.instances@[i]).ingress_host is Some
            && n.instances@[i].ingress_host->0@.len() > 0 && lower_of(
            n.instances@[i].ingress_host->0@,
        ) == host {
        let i = choose|i: int|
            0 <= i < n.instances@.len() && (#[trigger] n.instances@[i]).ingress_host is Some
                && n.instances@[i].ingress_host->0@.len() > 0 && lower_of(
                n.instances@[i].ingress_host->0@,
            ) == host;
        assert(instance_host(n.instances@[i]) == Some(host));
    }
}

/// One more node adds its instances to the census, those of them that ask for a host, and
/// itself where it has an address.
pub proof fn law_a_node_is_counted(inv: Seq<NodeInventory>, n: NodeInventory)
    ensures
        instances_of(inv.push(n)) == instances_of(inv) + n.instances@.len(),
        n.address@.len() > 0 ==> addressed_of(inv.push(n)) == addressed_of(inv) + 1,
        n.address@.len() == 0 ==> addressed_of(inv.push(n)) == addressed_of(inv),
        hosted_of(inv.push(n)) == hosted_of(inv) + hosted_among(n.instances@),
        hosted_of(inv) <= instances_of(inv),
        addressed_of(inv) <= inv.len(),
    decreases inv.len(),
{
    assert(inv.push(n).drop_last() =~= inv);
    if inv.len() > 0 {
        law_a_node_is_counted(inv.drop_last(), inv.last());
        assert(inv.drop_last().push(inv.last()) =~= inv);
        lemma_hosted_among(inv.last().instances@);
    }
}

proof fn lemma_hosted_among(rs: Seq<RunningInstance>)
    ensures
        hosted_among(rs) <= rs.len(),
    decreases rs.len(),
{
    if rs.len() > 0 {
        lemma_hosted_among(rs.drop_last());
    }
}

/// Something is said beyond the count exactly where a read was not adopted, or where a fleet
/// that never had a route still has none.
pub proof fn law_when_a_refresh_is_told_of(
    c: Census,
    reads: u64,
    routes: u64,
    had_routes: bool,
    v: Verdict,
    streak: u32,
)
    ensures
        refresh_notes(c, reads, routes, had_routes, v, streak)[0] == read_line(reads, c, routes),
        refresh_notes(c, reads, routes, had_routes, v, streak).len() == 1 <==> v == Verdict::Adopt
            && !(routes == 0 && c.nodes > 0 && !had_routes),
        v != Verdict::RideOut && routes == 0 && c.nodes > 0 && !had_routes ==> refresh_notes(
            c,
            reads,
            routes,
            had_routes,
            v,
            streak,
        ).last() == still_line(c),
{
}

/// What is told of a read: which read it was, how many nodes, instances and routes it gave.
pub proof fn law_a_read_is_told_by_its_numbers(reads: u64, c: Census, routes: u64)
    ensures
        holds(read_line(reads, c, routes), "comp-ingress: refresh #"@ + dec_of(reads as nat)),
        holds(read_line(reads, c, routes), dec_of(c.nodes as nat) + " node(s), "@),
        holds(read_line(reads, c, routes), dec_of(c.instances as nat) + " instance(s), "@),
        holds(read_line(reads, c, routes), dec_of(routes as nat) + " route(s)"@),
{
    let c0 = "comp-ingress: refresh #"@;
    let c1 = dec_of(reads as nat);
    let c2 = ": "@;
    let c3 = dec_of(c.nodes as nat);
    let c4 = " node(s), "@;
    let c5 = dec_of(c.instances as nat);
    let c6 = " instance(s), "@;
    let c7 = dec_of(routes as nat);
    let c8 = " route(s)"@;
    let s0 = c0;
    let s1 = s0 + c1;
    let s2 = s1 + c2;
    let s3 = s2 + c3;
    let s4 = s3 + c4;
    let s5 = s4 + c5;
    let s6 = s5 + c6;
    let s7 = s6 + c7;
    let s8 = s7 + c8;
    lemma_holds_itself(s1);
    lemma_holds_longer(s1, s1, c2);
    lemma_holds_longer(s2, s1, c3);
    lemma_holds_longer(s3, s1, c4);
    lemma_holds_longer(s4, s1, c5);
    lemma_holds_longer(s5, s1, c6);
    lemma_holds_longer(s6, s1, c7);
    lemma_holds_longer(s7, s1, c8);
    lemma_assoc(s2, c3, c4);
    lemma_holds_end(s2, c3 + c4);
    lemma_holds_longer(s4, c3 + c4, c5);
    lemma_holds_longer(s5, c3 + c4, c6);
    lemma_holds_longer(s6, c3 + c4, c7);
    lemma_holds_longer(s7, c3 + c4, c8);
    lemma_assoc(s4, c5, c6);
    lemma_holds_end(s4, c5 + c6);
    lemma_holds_longer(s6, c5 + c6, c7);
    lemma_holds_longer(s7, c5 + c6, c8);
    lemma_assoc(s6, c7, c8);
    lemma_holds_end(s6, c7 + c8);
}

/// What is told of a fleet without routes: how many nodes there are, how many of them have an
/// address, how many instances run and how many of those ask for a host.
pub proof fn law_what_is_missing_is_told_by_its_numbers(c: Census)
    ensures
        holds(still_line(c), dec_of(c.nodes as nat) + " node(s) — "@),
        holds(still_line(c), dec_of(c.addressed as nat) + " with an address, "@),
        holds(still_line(c), dec_of(c.instances as nat) + " instance(s), "@),
        holds(still_line(c), dec_of(c.hosted as nat) + " carrying an ingress-host"@),
{
    let c0 = "comp-ingress: still 0 routes from "@;
    let c1 = dec_of(c.nodes as nat);
    let c2 = " node(s) — "@;
    let c3 = dec_of(c.addressed as nat);
    let c4 = " with an address, "@;
    let c5 = dec_of(c.instances as nat);
    let c6 = " instance(s), "@;
    let c7 = dec_of(c.hosted as nat);
    let c8 = " carrying an ingress-host"@;
    let s0 = c0;
    let s1 = s0 + c1;
    let s2 = s1 + c2;
    let s3 = s2 + c3;
    let s4 = s3 + c4;
    let s5 = s4 + c5;
    let s6 = s5 + c6;
    let s7 = s6 + c7;
    let s8 = s7 + c8;
    lemma_assoc(s0, c1, c2);
    lemma_holds_end(s0, c1 + c2);
    lemma_holds_longer(s2, c1 + c2, c3);
    lemma_holds_longer(s3, c1 + c2, c4);
    lemma_holds_longer(s4, c1 + c2, c5);
    lemma_holds_longer(s5, c1 + c2, c6);
    lemma_holds_longer(s6, c1 + c2, c7);
    lemma_holds_longer(s7, c1 + c2, c8);
    lemma_assoc(s2, c3, c4);
    lemma_holds_end(s2, c3 + c4);
    lemma_holds_longer(s4, c3 + c4, c5);
    lemma_holds_longer(s5, c3 + c4, c6);
    lemma_holds_longer(s6, c3 + c4, c7);
    lemma_holds_longer(s7, c3 + c4, c8);
    lemma_assoc(s4, c5, c6);
    lemma_holds_end(s4, c5 + c6);
    lemma_holds_longer(s6, c5 + c6, c7);
    lemma_holds_longer(s7, c5 + c6, c8);
    lemma_assoc(s6, c7, c8);
    lemma_holds_end(s6, c7 + c8);
}

/// A node that is listed more than once is routed to by its first entry that answers.
pub proof fn law_a_node_is_routed_to_by_its_first_entry(
    inv: Seq<NodeInventory>,
    name: Seq<char>,
    host: Seq<char>,
    i: int,
)
    requires
        0 <= i <= inv.len(),
    ensures
        first_answering(inv, name, host, i) matches Some(n) ==> n.node@ == name && answers(n, host)
            && exists|k: int|
            i <= k < inv.len() && #[trigger] inv[k] == n && forall|j: int|
                i <= j < k ==> !((#[trigger] inv[j]).node@ == name && answers(inv[j], host)),
        first_answering(inv, name, host, i) is None ==> forall|j: int|
            i <= j < inv.len() ==> !((#[trigger] inv[j]).node@ == name && answers(inv[j], host)),
    decreases inv.len() - i,
{
    if i < inv.len() {
        if inv[i].node@ == name && answers(inv[i], host) {
            assert(inv[i] == first_answering(inv, name, host, i)->0);
        } else {
            law_a_node_is_routed_to_by_its_first_entry(inv, name, host, i + 1);
            if let Some(n) = first_answering(inv, name, host, i + 1) {
                let k = choose|k: int|
                    i + 1 <= k < inv.len() && #[trigger] inv[k] == n && forall|j: int|
                        i + 1 <= j < k ==> !((#[trigger] inv[j]).node@ == name && answers(
                            inv[j],
                            host,
                        ));
                assert(inv[k] == n);
            }
        }
    }
}

/// A verdict is told only where a read was not adopted.
pub proof fn law_a_verdict_is_told_where_a_read_was_not_adopted(v: Verdict, c: Census, streak: u32)
    ensures
        verdict_line(v, c, streak) is None <==> v == Verdict::Adopt,
{
}

/// A backend is seen by its node, its address and its processors; a table by the backends under
/// each host.
pub proof fn law_a_backend_is_seen_whole(bs: Seq<Backend>, i: int, t: Table, host: Seq<char>)
    ensures
        backend_views(bs).len() == bs.len(),
        0 <= i < bs.len() ==> backend_views(bs)[i].node == bs[i].node@ && backend_views(bs)[i].address
            == bs[i].address@ && backend_views(bs)[i].cpus == bs[i].cpus,
        t@.contains_key(host) <==> t.routes@.contains_key(host),
        t.routes@.contains_key(host) ==> t@[host] == backend_views(t.routes@[host]@),
{
}

} // verus!

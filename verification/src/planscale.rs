//! The world that the planner is measured on: apps spread over a fleet that already runs
//! them all.

use vstd::prelude::*;
use vstd::string::*;

use crate::number::{dec, dec_of, hex, hex_of, number_of, parse_number};
use crate::text::{same, split, split_of, strs, trim, trim_of};

verus! {

// ----------------------------------------------------------------- options --

/// Where an option stands among some arguments, looked for from `i` on.
pub open spec fn flag_at(args: Seq<Seq<char>>, flag: Seq<char>, i: int) -> Option<int>
    decreases args.len() - i,
{
    if i < 0 || i >= args.len() {
        None
    } else if args[i] == flag {
        Some(i)
    } else {
        flag_at(args, flag, i + 1)
    }
}

/// The sizes that some parts name; none where one of them is no size.
pub open spec fn sizes_in(parts: Seq<Seq<char>>) -> Option<Seq<usize>>
    decreases parts.len(),
{
    if parts.len() == 0 {
        Some(Seq::empty())
    } else {
        match (sizes_in(parts.drop_last()), number_of(trim_of(parts.last()), 10)) {
            (Some(v), Some(n)) => if n <= usize::MAX {
                Some(v.push(n as usize))
            } else {
                None
            },
            _ => None,
        }
    }
}

/// The sizes that an option names, or the usual ones where it is not given; none where it
/// names no sizes.
pub open spec fn list_of(args: Seq<Seq<char>>, flag: Seq<char>, usual: Seq<usize>) -> Option<
    Seq<usize>,
> {
    match flag_at(args, flag, 0) {
        None => Some(usual),
        Some(i) => if i + 1 < args.len() {
            sizes_in(split_of(args[i + 1], ','))
        } else {
            None
        },
    }
}

fn read_sizes(parts: &Vec<String>) -> (r: Option<Vec<usize>>)
    ensures
        (match r {
            Some(v) => Some(v@),
            None => None,
        }) == sizes_in(strs(parts@)),
{
    let ghost all = strs(parts@);
    let mut out: Vec<usize> = Vec::new();
    let mut i: usize = 0;
    assert(all.take(0) =~= Seq::empty());
    while i < parts.len()
        invariant
            i <= parts.len(),
            all == strs(parts@),
            sizes_in(all.take(i as int)) == Some(out@),
        decreases parts.len() - i,
    {
        assert(all.take(i + 1).drop_last() =~= all.take(i as int));
        assert(all.take(i + 1).last() == parts@[i as int]@);
        match parse_number(trim(parts[i].as_str()).as_str(), 10, usize::MAX as u64) {
            Some(n) => {
                out.push(n as usize);
            },
            None => {
                proof {
                    lemma_unreadable(all, i + 1);
                }
                return None;
            },
        }
        i = i + 1;
    }
    assert(all.take(i as int) =~= all);
    Some(out)
}

proof fn lemma_unreadable(parts: Seq<Seq<char>>, i: int)
    requires
        0 <= i <= parts.len(),
        sizes_in(parts.take(i)) is None,
    ensures
        sizes_in(parts) is None,
    decreases parts.len() - i,
{
    if i < parts.len() {
        assert(parts.take(i + 1).drop_last() =~= parts.take(i));
        lemma_unreadable(parts, i + 1);
    } else {
        assert(parts.take(i) =~= parts);
    }
}

/// The sizes that an option names, or the usual ones where it is not given.
pub fn list(args: &Vec<String>, flag: &str, usual: &Vec<usize>) -> (r: Option<Vec<usize>>)
    ensures
        (match r {
            Some(v) => Some(v@),
            None => None,
        }) == list_of(strs(args@), flag@, usual@),
{
    let ghost all = strs(args@);
    let mut i: usize = 0;
    while i < args.len()
        invariant
            i <= args.len(),
            all == strs(args@),
            flag_at(all, flag@, i as int) == flag_at(all, flag@, 0),
        decreases args.len() - i,
    {
        assert(all[i as int] == args@[i as int]@);
        if same(args[i].as_str(), flag) {
            if args.len() - i > 1 {
                assert(all[i + 1] == args@[i + 1]@);
                let parts = split(args[i + 1].as_str(), ',');
                return read_sizes(&parts);
            }
            return None;
        }
        i = i + 1;
    }
    let mut out: Vec<usize> = Vec::new();
    let mut k: usize = 0;
    while k < usual.len()
        invariant
            k <= usual.len(),
            out@ =~= usual@.take(k as int),
        decreases usual.len() - k,
    {
        out.push(usual[k]);
        k = k + 1;
    }
    assert(out@ =~= usual@);
    Some(out)
}

// ------------------------------------------------------------------- world --

/// An app of the world: two replicas of one component.
#[derive(Debug, PartialEq, Eq)]
pub struct AppSpec {
    pub app: String,
    pub tenant: String,
    pub digest: String,
    pub host: String,
}

/// How many tenants share so many apps. It grows with the apps, for a single tenant would
/// hide what each one costs.
pub open spec fn tenants(apps: int) -> int {
    if apps / 10 > 1 {
        apps / 10
    } else {
        1
    }
}

/// Sixty-two zeros, the head of an artifact's digest.
pub open spec fn zeros() -> Seq<char> {
    "00000000000000000000000000000000000000000000000000000000000000"@
}

/// The digest of an app's artifact, of which there are fifty.
pub open spec fn digest_of(a: int) -> Seq<char> {
    "sha256:"@ + zeros() + hex_of(seq![(a % 50) as u8])
}

/// An app is the one of this number, of so many.
pub open spec fn is_app(s: AppSpec, a: int, apps: int) -> bool {
    &&& s.app@ == "app"@ + dec_of(a as nat)
    &&& s.tenant@ == "org"@ + dec_of((a % tenants(apps)) as nat)
    &&& s.digest@ == digest_of(a)
    &&& s.host@ == "app"@ + dec_of(a as nat) + ".example.com"@
}

fn app_spec(a: usize, apps: usize) -> (s: AppSpec)
    ensures
        is_app(s, a as int, apps as int),
{
    let n = if apps / 10 > 1 {
        apps / 10
    } else {
        1
    };
    let name = "app".to_string().concat(dec(a as u64).as_str());
    let v: Vec<u8> = vec![(a % 50) as u8];
    assert(v@ =~= seq![(a as int % 50) as u8]);
    AppSpec {
        tenant: "org".to_string().concat(dec((a % n) as u64).as_str()),
        digest: "sha256:".to_string().concat(
            "00000000000000000000000000000000000000000000000000000000000000",
        ).concat(hex(v.as_slice()).as_str()),
        host: name.clone().concat(".example.com"),
        app: name,
    }
}

/// The node that runs a replica: apps go round, each one's replicas on neighbours.
pub open spec fn node_of(a: int, replica: int, nodes: int) -> int {
    (2 * a + replica) % nodes
}

/// The apps that node `n` runs a replica of, once for each, of the first `k` replicas in
/// order.
pub open spec fn runs_of(n: int, nodes: int, k: int) -> Seq<usize>
    decreases k,
{
    if k <= 0 {
        Seq::empty()
    } else if (k - 1) % nodes == n {
        runs_of(n, nodes, k - 1).push(((k - 1) / 2) as usize)
    } else {
        runs_of(n, nodes, k - 1)
    }
}

/// The world: its apps, and for each node the apps that it runs a replica of.
#[derive(Debug, PartialEq, Eq)]
pub struct World {
    pub apps: Vec<AppSpec>,
    pub nodes: Vec<Vec<usize>>,
}

/// The world of so many nodes and apps, converged: every replica runs.
pub fn world(nodes: usize, apps: usize) -> (w: World)
    requires
        nodes > 0 || apps == 0,
        2 * apps <= usize::MAX,
    ensures
        w.apps@.len() == apps,
        forall|a: int| 0 <= a < apps ==> is_app(#[trigger] w.apps@[a], a, apps as int),
        w.nodes@.len() == nodes,
        forall|n: int|
            0 <= n < nodes ==> (#[trigger] w.nodes@[n])@ == runs_of(n, nodes as int, 2 * apps),
{
    let mut list: Vec<AppSpec> = Vec::new();
    let mut a: usize = 0;
    while a < apps
        invariant
            a <= apps,
            list@.len() == a,
            forall|b: int| 0 <= b < a ==> is_app(#[trigger] list@[b], b, apps as int),
        decreases apps - a,
    {
        list.push(app_spec(a, apps));
        a = a + 1;
    }
    let mut per: Vec<Vec<usize>> = Vec::new();
    let mut n: usize = 0;
    while n < nodes
        invariant
            n <= nodes,
            per@.len() == n,
            forall|m: int| 0 <= m < n ==> (#[trigger] per@[m])@ == Seq::<usize>::empty(),
        decreases nodes - n,
    {
        per.push(Vec::new());
        n = n + 1;
    }
    let total = apps * 2;
    let mut k: usize = 0;
    while k < total
        invariant
            k <= total,
            total == 2 * apps,
            nodes > 0 || total == 0,
            per@.len() == nodes,
            forall|m: int|
                0 <= m < nodes ==> (#[trigger] per@[m])@ == runs_of(m, nodes as int, k as int),
        decreases total - k,
    {
        let at = k % nodes;
        let ghost o = per@;
        let mut row: Vec<usize> = Vec::new();
        std::mem::swap(&mut row, &mut per[at]);
        row.push(k / 2);
        std::mem::swap(&mut row, &mut per[at]);
        assert forall|m: int| 0 <= m < nodes implies (#[trigger] per@[m])@ == runs_of(
            m,
            nodes as int,
            k + 1,
        ) by {
            assert(o[m]@ == runs_of(m, nodes as int, k as int));
        }
        k = k + 1;
    }
    World { apps: list, nodes: per }
}

/// The node's name.
pub fn node_name(n: usize) -> (out: String)
    ensures
        out@ == "n"@ + dec_of(n as nat),
{
    "n".to_string().concat(dec(n as u64).as_str())
}

/// Where the node answers.
pub fn node_address(n: usize) -> (out: String)
    ensures
        out@ == "10.0.0."@ + dec_of((n % 250) as nat) + ":8080"@,
{
    "10.0.0.".to_string().concat(dec((n % 250) as u64).as_str()).concat(":8080")
}

/// The two replicas of an app run on different nodes, where there is more than one.
pub proof fn law_replicas_run_apart(a: int, nodes: int)
    requires
        a >= 0,
        nodes >= 2,
    ensures
        node_of(a, 0, nodes) != node_of(a, 1, nodes),
{
    let x = 2 * a;
    if x % nodes == (x + 1) % nodes {
        let q = x / nodes;
        let p = (x + 1) / nodes;
        assert(x == nodes * q + x % nodes) by (nonlinear_arith)
            requires
                nodes > 0,
                q == x / nodes,
        ;
        assert(x + 1 == nodes * p + (x + 1) % nodes) by (nonlinear_arith)
            requires
                nodes > 0,
                p == (x + 1) / nodes,
        ;
        assert(nodes * p - nodes * q == 1);
        assert(false) by (nonlinear_arith)
            requires
                nodes * p - nodes * q == 1,
                nodes >= 2,
        ;
    }
}

/// Every replica runs on exactly the node that the apps' round gives it.
pub proof fn law_every_replica_runs(n: int, nodes: int, k: int, r: int)
    requires
        nodes > 0,
        0 <= r < k,
        r % nodes == n,
    ensures
        runs_of(n, nodes, k).contains((r / 2) as usize),
    decreases k,
{
    let s = runs_of(n, nodes, k);
    if r == k - 1 {
        assert(s.last() == (r / 2) as usize);
    } else {
        law_every_replica_runs(n, nodes, k - 1, r);
        let t = runs_of(n, nodes, k - 1);
        let i = choose|i: int| 0 <= i < t.len() && t[i] == (r / 2) as usize;
        assert(s[i] == (r / 2) as usize);
    }
}

/// The sizes are those behind the flag, in their order, where it is given; and otherwise the
/// usual ones.
pub proof fn law_which_sizes_are_planned(args: Seq<Seq<char>>, flag: Seq<char>, usual: Seq<usize>, i: int)
    requires
        0 <= i <= args.len(),
    ensures
        !args.contains(flag) ==> list_of(args, flag, usual) == Some(usual),
        flag_at(args, flag, i) matches Some(k) ==> i <= k < args.len() && args[k] == flag && forall|
            j: int,
        |
            i <= j < k ==> #[trigger] args[j] != flag,
        flag_at(args, flag, i) is None ==> forall|j: int| i <= j < args.len() ==> #[trigger] args[j]
            != flag,
{
    lemma_flag(args, flag, i);
    lemma_flag(args, flag, 0);
}

proof fn lemma_flag(args: Seq<Seq<char>>, flag: Seq<char>, i: int)
    requires
        0 <= i <= args.len(),
    ensures
        flag_at(args, flag, i) matches Some(k) ==> i <= k < args.len() && args[k] == flag && forall|
            j: int,
        |
            i <= j < k ==> #[trigger] args[j] != flag,
        flag_at(args, flag, i) is None ==> forall|j: int| i <= j < args.len() ==> #[trigger] args[j]
            != flag,
    decreases args.len() - i,
{
    if i < args.len() && args[i] != flag {
        lemma_flag(args, flag, i + 1);
    }
}

/// There is a tenant for every ten apps, and at least one.
pub proof fn law_a_tenant_for_every_ten_apps(apps: int)
    requires
        apps >= 0,
    ensures
        apps < 20 ==> tenants(apps) == 1,
        apps >= 20 ==> 10 * tenants(apps) <= apps < 10 * (tenants(apps) + 1),
{
}

/// An app of the planned world is named, hosted and owned by its number; one in fifty shares a
/// digest.
pub proof fn law_an_app_is_planned_by_its_number(s: AppSpec, a: int, apps: int)
    requires
        is_app(s, a, apps),
    ensures
        s.app@ == "app"@ + dec_of(a as nat),
        s.host@ == s.app@ + ".example.com"@,
        s.tenant@ == "org"@ + dec_of((a % tenants(apps)) as nat),
        digest_of(a) == s.digest@,
        digest_of(a) == digest_of(a + 50),
{
}

/// The sizes of an option are those of the word behind it, each part of it one; an option with
/// nothing behind it names none.
pub proof fn law_the_sizes_stand_behind_their_option(
    args: Seq<Seq<char>>,
    flag: Seq<char>,
    usual: Seq<usize>,
    i: int,
)
    requires
        0 <= i < args.len(),
        args[i] == flag,
        forall|j: int| 0 <= j < i ==> args[j] != flag,
    ensures
        i + 1 < args.len() ==> list_of(args, flag, usual) == sizes_in(split_of(args[i + 1], ',')),
        i + 1 == args.len() ==> list_of(args, flag, usual) is None,
{
    lemma_flag(args, flag, 0);
}

/// Sizes are read one for each part, in their order; one part that is no number spoils them all.
pub proof fn law_each_part_is_a_size(parts: Seq<Seq<char>>, k: int)
    requires
        0 <= k < parts.len(),
    ensures
        sizes_in(parts) matches Some(v) ==> v.len() == parts.len() && number_of(trim_of(parts[k]), 10)
            == Some(v[k] as int),
        number_of(trim_of(parts[k]), 10) is None ==> sizes_in(parts) is None,
    decreases parts.len(),
{
    lemma_sizes_len(parts.drop_last());
    if k < parts.len() - 1 {
        law_each_part_is_a_size(parts.drop_last(), k);
        assert(parts.drop_last()[k] == parts[k]);
    } else {
        crate::number::lemma_digits_grow(
            crate::number::unsigned_digits(trim_of(parts[k])),
            10,
            0,
        );
    }
}

proof fn lemma_sizes_len(parts: Seq<Seq<char>>)
    ensures
        sizes_in(parts) matches Some(v) ==> v.len() == parts.len(),
    decreases parts.len(),
{
    if parts.len() > 0 {
        lemma_sizes_len(parts.drop_last());
    }
}

} // verus!

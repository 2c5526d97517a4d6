//! The graph as data, and the answers that are read: what was built twice, and what is
//! already there for a wish.

use vstd::prelude::*;
use vstd::string::*;

use crate::capgraph::App;
use crate::number::{dec, dec_of};
use crate::order::{permutes, stable_order};
use crate::text::{before_char, before_char_of, debug, debug_of, holds, join, join_of, lemma_assoc, lemma_between, lemma_holds_end, lemma_holds_itself, lemma_holds_longer, lemma_join_around, lemma_quoted_read_back, occurs_at, pad_end, pad_end_of, pad_start, pad_start_of, starts_with, strs};
use crate::text_map::TextMap;

verus! {

// ------------------------------------------------------------------- input --

/// Who provides an interface and who uses it, in the order in which the edges name
/// them.
#[derive(Debug, PartialEq, Eq)]
pub struct Use {
    pub provider: String,
    pub consumers: Vec<String>,
}

/// One use of an interface: consumer, interface, provider.
#[derive(Debug, PartialEq, Eq)]
pub struct Edge {
    pub consumer: String,
    pub interface: String,
    pub provider: String,
}

/// The consumers of an interface among some edges, in order.
pub open spec fn consumers_of(es: Seq<Edge>, iface: Seq<char>) -> Seq<Seq<char>>
    decreases es.len(),
{
    if es.len() == 0 {
        Seq::empty()
    } else if es.last().interface@ == iface {
        consumers_of(es.drop_last(), iface).push(es.last().consumer@)
    } else {
        consumers_of(es.drop_last(), iface)
    }
}

/// The provider that the first edge of an interface names.
pub open spec fn provider_of(es: Seq<Edge>, iface: Seq<char>) -> Seq<char>
    decreases es.len(),
{
    if es.len() == 0 {
        Seq::empty()
    } else if es[0].interface@ == iface {
        es[0].provider@
    } else {
        provider_of(es.skip(1), iface)
    }
}

/// Is there an edge of this interface?
pub open spec fn used(es: Seq<Edge>, iface: Seq<char>) -> bool {
    exists|i: int| 0 <= i < es.len() && (#[trigger] es[i]).interface@ == iface
}

/// The uses are those of the edges: each interface with its first provider and all of
/// its consumers.
pub open spec fn collects(m: Map<Seq<char>, Use>, es: Seq<Edge>) -> bool {
    &&& forall|i: Seq<char>| #[trigger] m.contains_key(i) <==> used(es, i)
    &&& forall|i: Seq<char>| #[trigger]
        m.contains_key(i) ==> m[i].provider@ == provider_of(es, i) && strs(m[i].consumers@)
            == consumers_of(es, i)
}

/// The provider of an interface is the one that the first edge of the interface names,
/// whoever the later edges name.
pub proof fn law_the_first_edge_names_the_provider(es: Seq<Edge>, k: int)
    requires
        0 <= k < es.len(),
        forall|j: int| 0 <= j < k ==> (#[trigger] es[j]).interface@ != es[k].interface@,
    ensures
        provider_of(es, es[k].interface@) == es[k].provider@,
    decreases k,
{
    if k > 0 {
        assert(es[0].interface@ != es[k].interface@);
        assert(es.skip(1)[k - 1] == es[k]);
        assert forall|j: int| 0 <= j < k - 1 implies (#[trigger] es.skip(1)[j]).interface@ != es.skip(
            1,
        )[k - 1].interface@ by {
            assert(es.skip(1)[j] == es[j + 1]);
        }
        law_the_first_edge_names_the_provider(es.skip(1), k - 1);
    }
}

/// The consumers of an interface are those of its edges, one for each edge, in the order of
/// the edges.
pub proof fn law_the_consumers_are_those_of_the_edges(es: Seq<Edge>, iface: Seq<char>)
    ensures
        consumers_of(es, iface) == es.filter(|e: Edge| e.interface@ == iface).map_values(
            |e: Edge| e.consumer@,
        ),
    decreases es.len(),
{
    let mine = |e: Edge| e.interface@ == iface;
    let who = |e: Edge| e.consumer@;
    reveal(Seq::filter);
    if es.len() > 0 {
        law_the_consumers_are_those_of_the_edges(es.drop_last(), iface);
        let before = es.drop_last().filter(mine);
        assert(before.push(es.last()).map_values(who) =~= before.map_values(who).push(
            es.last().consumer@,
        ));
    } else {
        assert(es.filter(mine).map_values(who) =~= Seq::empty());
    }
}

proof fn lemma_provider_push(es: Seq<Edge>, e: Edge, iface: Seq<char>)
    ensures
        provider_of(es.push(e), iface) == if used(es, iface) {
            provider_of(es, iface)
        } else if e.interface@ == iface {
            e.provider@
        } else {
            Seq::empty()
        },
    decreases es.len(),
{
    if es.len() == 0 {
        assert(es.push(e)[0] == e);
        assert(es.push(e).skip(1).len() == 0);
        assert(provider_of(es.push(e).skip(1), iface) == Seq::<char>::empty());
    } else {
        assert(es.push(e)[0] == es[0]);
        if es[0].interface@ == iface {
            assert(used(es, iface));
        } else {
            lemma_provider_push(es.skip(1), e, iface);
            assert(es.push(e).skip(1) =~= es.skip(1).push(e));
            if used(es, iface) {
                let i = choose|i: int| 0 <= i < es.len() && (#[trigger] es[i]).interface@ == iface;
                assert(es.skip(1)[i - 1].interface@ == iface);
            }
            if used(es.skip(1), iface) {
                let i = choose|i: int|
                    0 <= i < es.skip(1).len() && (#[trigger] es.skip(1)[i]).interface@ == iface;
                assert(es[i + 1].interface@ == iface);
            }
        }
    }
}

/// The interfaces in the order of their names, each with who provides it and who uses
/// it.
pub fn by_interface(edges: &Vec<Edge>) -> (m: TextMap<Use>)
    ensures
        m.wf(),
        collects(m@, edges@),
{
    let mut m: TextMap<Use> = TextMap::new();
    let mut i: usize = 0;
    assert(edges@.take(0) =~= Seq::empty());
    while i < edges.len()
        invariant
            i <= edges.len(),
            m.wf(),
            collects(m@, edges@.take(i as int)),
        decreases edges.len() - i,
    {
        let e = &edges[i];
        let ghost es = edges@.take(i as int);
        let ghost before = m@;
        proof {
            assert(edges@.take(i + 1) =~= es.push(*e));
            assert(es.push(*e).drop_last() =~= es);
        }
        let u = match m.get(e.interface.as_str()) {
            Some(old_use) => {
                let mut consumers = crate::text::copy_texts(&old_use.consumers);
                let ghost c = consumers@;
                consumers.push(e.consumer.clone());
                assert(strs(consumers@) =~= strs(c).push(e.consumer@));
                Use { provider: old_use.provider.clone(), consumers }
            },
            None => {
                let mut consumers: Vec<String> = Vec::new();
                consumers.push(e.consumer.clone());
                proof {
                    lemma_no_consumers(es, e.interface@);
                }
                assert(strs(consumers@) =~= consumers_of(es, e.interface@).push(e.consumer@));
                Use { provider: e.provider.clone(), consumers }
            },
        };
        m.insert(e.interface.clone(), u);
        proof {
            let now = es.push(*e);
            assert forall|k: Seq<char>| #[trigger] m@.contains_key(k) <==> used(now, k) by {
                if used(es, k) {
                    let j = choose|j: int|
                        0 <= j < es.len() && (#[trigger] es[j]).interface@ == k;
                    assert(now[j].interface@ == k);
                }
                assert(now[es.len() as int].interface@ == e.interface@);
                if used(now, k) && k != e.interface@ {
                    let j = choose|j: int|
                        0 <= j < now.len() && (#[trigger] now[j]).interface@ == k;
                    assert(es[j].interface@ == k);
                }
                assert(before.contains_key(k) <==> used(es, k));
            }
            assert forall|k: Seq<char>| #[trigger] m@.contains_key(k) implies m@[k].provider@
                == provider_of(now, k) && strs(m@[k].consumers@) == consumers_of(now, k) by {
                lemma_provider_push(es, *e, k);
                assert(before.contains_key(k) <==> used(es, k));
            }
        }
        i = i + 1;
    }
    assert(edges@.take(i as int) =~= edges@);
    m
}

proof fn lemma_no_consumers(es: Seq<Edge>, iface: Seq<char>)
    requires
        !used(es, iface),
    ensures
        consumers_of(es, iface) == Seq::<Seq<char>>::empty(),
    decreases es.len(),
{
    if es.len() > 0 {
        assert(es[es.len() - 1].interface@ != iface);
        assert(!used(es.drop_last(), iface)) by {
            if used(es.drop_last(), iface) {
                let j = choose|j: int|
                    0 <= j < es.drop_last().len() && (#[trigger] es.drop_last()[j]).interface@
                        == iface;
                assert(es[j].interface@ == iface);
            }
        }
        lemma_no_consumers(es.drop_last(), iface);
    }
}

/// Which applications carry a component, in their order.
pub open spec fn carriers(apps: Seq<App>, part: Seq<char>) -> Seq<Seq<char>>
    decreases apps.len(),
{
    if apps.len() == 0 {
        Seq::empty()
    } else {
        carriers(apps.drop_last(), part) + repeated(
            apps.last().name@,
            times(strs(apps.last().parts@), part),
        )
    }
}

/// How often a text stands in a list.
pub open spec fn times(v: Seq<Seq<char>>, t: Seq<char>) -> nat
    decreases v.len(),
{
    if v.len() == 0 {
        0
    } else {
        times(v.drop_last(), t) + if v.last() == t {
            1nat
        } else {
            0nat
        }
    }
}

/// A text, `n` times.
pub open spec fn repeated(t: Seq<char>, n: nat) -> Seq<Seq<char>> {
    Seq::new(n, |i: int| t)
}

/// The map is which applications carry each component.
pub open spec fn carries(m: Map<Seq<char>, Vec<String>>, apps: Seq<App>) -> bool {
    forall|p: Seq<char>|
        (#[trigger] m.contains_key(p) <==> carriers(apps, p).len() > 0) && (m.contains_key(p)
            ==> strs(m[p]@) == carriers(apps, p))
}

/// Which applications carry each component.
pub fn used_by(apps: &Vec<App>) -> (m: TextMap<Vec<String>>)
    ensures
        m.wf(),
        carries(m@, apps@),
{
    let mut m: TextMap<Vec<String>> = TextMap::new();
    let mut i: usize = 0;
    assert(apps@.take(0) =~= Seq::empty());
    while i < apps.len()
        invariant
            i <= apps.len(),
            m.wf(),
            carries(m@, apps@.take(i as int)),
        decreases apps.len() - i,
    {
        let a = &apps[i];
        let ghost done = apps@.take(i as int);
        let ghost parts = strs(a.parts@);
        let mut k: usize = 0;
        proof {
            assert(parts.take(0) =~= Seq::empty());
            assert forall|p: Seq<char>| carriers(done, p) + repeated(a.name@, 0) =~= #[trigger]
            carriers(done, p) by {}
        }
        while k < a.parts.len()
            invariant
                k <= a.parts.len(),
                m.wf(),
                parts == strs(a.parts@),
                forall|p: Seq<char>|
                    (#[trigger] m@.contains_key(p) <==> (carriers(done, p) + repeated(
                        a.name@,
                        times(parts.take(k as int), p),
                    )).len() > 0) && (m@.contains_key(p) ==> strs(m@[p]@) == carriers(done, p)
                        + repeated(a.name@, times(parts.take(k as int), p))),
            decreases a.parts.len() - k,
        {
            let part = a.parts[k].as_str();
            let ghost before = m@;
            let mut list = match m.get(part) {
                Some(v) => crate::text::copy_texts(v),
                None => Vec::new(),
            };
            let ghost l = list@;
            list.push(a.name.clone());
            proof {
                assert(strs(list@) =~= strs(l).push(a.name@));
                assert(before.contains_key(part@) <==> (carriers(done, part@) + repeated(
                    a.name@,
                    times(parts.take(k as int), part@),
                )).len() > 0);
                if !before.contains_key(part@) {
                    assert(strs(l) =~= carriers(done, part@) + repeated(
                        a.name@,
                        times(parts.take(k as int), part@),
                    ));
                }
            }
            m.insert(part.to_string(), list);
            proof {
                let now = parts.take(k + 1);
                assert(now.drop_last() =~= parts.take(k as int));
                assert forall|p: Seq<char>|
                    (#[trigger] m@.contains_key(p) <==> (carriers(done, p) + repeated(
                        a.name@,
                        times(now, p),
                    )).len() > 0) && (m@.contains_key(p) ==> strs(m@[p]@) == carriers(done, p)
                        + repeated(a.name@, times(now, p))) by {
                    if p == part@ {
                        assert(carriers(done, p) + repeated(a.name@, times(now, p)) =~= (carriers(
                            done,
                            p,
                        ) + repeated(a.name@, times(parts.take(k as int), p))).push(a.name@));
                    } else {
                        assert(before.contains_key(p) == m@.contains_key(p));
                    }
                }
            }
            k = k + 1;
        }
        proof {
            assert(parts.take(k as int) =~= parts);
            assert(apps@.take(i + 1).drop_last() =~= done);
            assert forall|p: Seq<char>|
                (#[trigger] m@.contains_key(p) <==> carriers(apps@.take(i + 1), p).len() > 0) && (
                m@.contains_key(p) ==> strs(m@[p]@) == carriers(apps@.take(i + 1), p)) by {
                assert(carriers(apps@.take(i + 1), p) == carriers(done, p) + repeated(
                    a.name@,
                    times(parts, p),
                ));
            }
        }
        i = i + 1;
    }
    assert(apps@.take(i as int) =~= apps@);
    m
}

// -------------------------------------------------------------------- data --

/// A text between quotes, as it is.
pub open spec fn quoted(s: Seq<char>) -> Seq<char> {
    "\""@ + s + "\""@
}

/// A list of texts, each between quotes.
pub open spec fn quoted_list(v: Seq<Seq<char>>) -> Seq<char> {
    join_of(v.map_values(|s: Seq<char>| quoted(s)), ", "@)
}

fn write_list(v: &Vec<String>) -> (out: String)
    ensures
        out@ == quoted_list(strs(v@)),
{
    let ghost want = strs(v@).map_values(|s: Seq<char>| quoted(s));
    let mut items: Vec<String> = Vec::new();
    let mut i: usize = 0;
    assert(strs(items@) =~= want.take(0));
    while i < v.len()
        invariant
            i <= v.len(),
            want == strs(v@).map_values(|s: Seq<char>| quoted(s)),
            strs(items@) == want.take(i as int),
        decreases v.len() - i,
    {
        let ghost o = items@;
        let t = "\"".to_string().concat(v[i].as_str()).concat("\"");
        items.push(t);
        assert(strs(items@) =~= strs(o).push(t@));
        assert(want.take(i + 1) =~= want.take(i as int).push(want[i as int]));
        i = i + 1;
    }
    assert(want.take(i as int) =~= want);
    join(&items, ", ")
}

/// One interface.
pub open spec fn interface_line(iface: Seq<char>, u: Use) -> Seq<char> {
    "    { \"interface\": \""@ + iface + "\", \"provider\": \""@ + u.provider@
        + "\", \"consumers\": ["@ + quoted_list(strs(u.consumers@)) + "], \"consumer_count\": "@
        + dec_of(u.consumers@.len()) + " }"@
}

/// One export that nothing uses.
pub open spec fn orphan_line(o: (String, String)) -> Seq<char> {
    "    { \"component\": \""@ + o.0@ + "\", \"interface\": \""@ + o.1@ + "\" }"@
}

/// One application.
pub open spec fn app_line(a: App) -> Seq<char> {
    "    { \"app\": \""@ + a.name@ + "\", \"root\": \""@ + a.root@ + "\", \"artifact\": \""@
        + a.artifact@ + "\", \"composes\": ["@ + quoted_list(strs(a.parts@)) + "] }"@
}

/// One component and the applications that carry it.
pub open spec fn component_line(component: Seq<char>, apps: Seq<Seq<char>>) -> Seq<char> {
    "    { \"component\": \""@ + component + "\", \"app_count\": "@ + dec_of(apps.len())
        + ", \"apps\": ["@ + quoted_list(apps) + "] }"@
}

/// How many consumers all interfaces have.
pub open spec fn count_uses(us: Seq<(Seq<char>, Use)>) -> nat
    decreases us.len(),
{
    if us.len() == 0 {
        0
    } else {
        count_uses(us.drop_last()) + us.last().1.consumers@.len()
    }
}

/// The lines of the interfaces.
pub open spec fn interface_lines(us: Seq<(Seq<char>, Use)>) -> Seq<Seq<char>> {
    us.map_values(|u: (Seq<char>, Use)| interface_line(u.0, u.1))
}

/// The lines of the components, those that the most applications carry first.
pub open spec fn component_lines(cs: Seq<(Seq<char>, Vec<String>)>, p: Seq<usize>) -> Seq<
    Seq<char>,
> {
    p.map_values(|i: usize| component_line(cs[i as int].0, strs(cs[i as int].1@)))
}

/// `p` lists components by how many applications carry them, the most first, and those
/// that as many carry in the order in which they stand.
pub open spec fn by_carriers(cs: Seq<(Seq<char>, Vec<String>)>, p: Seq<usize>) -> bool {
    &&& permutes(p, cs.len() as int)
    &&& forall|a: int, b: int|
        0 <= a < b < p.len() ==> cs[p[a] as int].1@.len() > cs[p[b] as int].1@.len() || (
        cs[p[a] as int].1@.len() == cs[p[b] as int].1@.len() && p[a] < p[b])
}

/// The graph as data.
pub open spec fn json_of(
    components: nat,
    us: Seq<(Seq<char>, Use)>,
    orphans: Seq<(String, String)>,
    apps: Seq<App>,
    cs: Seq<(Seq<char>, Vec<String>)>,
    p: Seq<usize>,
) -> Seq<char> {
    "{\n  \"interfaces\": [\n"@ + join_of(interface_lines(us), ",\n"@)
        + "\n  ],\n  \"exported_but_unconsumed\": [\n"@ + join_of(
        orphans.map_values(|o: (String, String)| orphan_line(o)),
        ",\n"@,
    ) + "\n  ],\n  \"apps\": [\n"@ + join_of(apps.map_values(|a: App| app_line(a)), ",\n"@)
        + "\n  ],\n  \"component_in_apps\": [\n"@ + join_of(component_lines(cs, p), ",\n"@)
        + "\n  ],\n  \"stats\": {\n"@ + "    \"total_components\": "@ + dec_of(components)
        + ",\n    \"total_interfaces\": "@ + dec_of(us.len()) + ",\n    \"total_import_edges\": "@
        + dec_of(count_uses(us)) + ",\n    \"unconsumed_exports\": "@ + dec_of(orphans.len())
        + ",\n    \"total_apps\": "@ + dec_of(apps.len()) + "\n  }\n}"@
}

/// What follows the interfaces in the graph as data.
spec fn after_interfaces(
    components: nat,
    interfaces: nat,
    uses: nat,
    unused: nat,
    orphan_text: Seq<char>,
    apps: nat,
    app_text: Seq<char>,
    component_text: Seq<char>,
) -> Seq<char> {
    "\n  ],\n  \"exported_but_unconsumed\": [\n"@ + orphan_text + "\n  ],\n  \"apps\": [\n"@
        + app_text + "\n  ],\n  \"component_in_apps\": [\n"@ + component_text
        + "\n  ],\n  \"stats\": {\n"@ + "    \"total_components\": "@ + dec_of(components)
        + ",\n    \"total_interfaces\": "@ + dec_of(interfaces)
        + ",\n    \"total_import_edges\": "@ + dec_of(uses) + ",\n    \"unconsumed_exports\": "@
        + dec_of(unused) + ",\n    \"total_apps\": "@ + dec_of(apps) + "\n  }\n}"@
}

proof fn lemma_interfaces_first(
    components: nat,
    us: Seq<(Seq<char>, Use)>,
    orphans: Seq<(String, String)>,
    apps: Seq<App>,
    cs: Seq<(Seq<char>, Vec<String>)>,
    p: Seq<usize>,
)
    ensures
        json_of(components, us, orphans, apps, cs, p) == "{\n  \"interfaces\": [\n"@ + join_of(
            interface_lines(us),
            ",\n"@,
        ) + after_interfaces(
            components,
            us.len(),
            count_uses(us),
            orphans.len(),
            join_of(orphans.map_values(|o: (String, String)| orphan_line(o)), ",\n"@),
            apps.len(),
            join_of(apps.map_values(|a: App| app_line(a)), ",\n"@),
            join_of(component_lines(cs, p), ",\n"@),
        ),
{
    let x = "{\n  \"interfaces\": [\n"@ + join_of(interface_lines(us), ",\n"@);
    let c1 = "\n  ],\n  \"exported_but_unconsumed\": [\n"@;
    let c2 = join_of(orphans.map_values(|o: (String, String)| orphan_line(o)), ",\n"@);
    let c3 = "\n  ],\n  \"apps\": [\n"@;
    let c4 = join_of(apps.map_values(|a: App| app_line(a)), ",\n"@);
    let c5 = "\n  ],\n  \"component_in_apps\": [\n"@;
    let c6 = join_of(component_lines(cs, p), ",\n"@);
    let c7 = "\n  ],\n  \"stats\": {\n"@;
    let c8 = "    \"total_components\": "@;
    let c9 = dec_of(components);
    let c10 = ",\n    \"total_interfaces\": "@;
    let c11 = dec_of(us.len());
    let c12 = ",\n    \"total_import_edges\": "@;
    let c13 = dec_of(count_uses(us));
    let c14 = ",\n    \"unconsumed_exports\": "@;
    let c15 = dec_of(orphans.len());
    let c16 = ",\n    \"total_apps\": "@;
    let c17 = dec_of(apps.len());
    let c18 = "\n  }\n}"@;
    let t1 = c1;
    let t2 = t1 + c2;
    lemma_assoc(x, t1, c2);
    let t3 = t2 + c3;
    lemma_assoc(x, t2, c3);
    let t4 = t3 + c4;
    lemma_assoc(x, t3, c4);
    let t5 = t4 + c5;
    lemma_assoc(x, t4, c5);
    let t6 = t5 + c6;
    lemma_assoc(x, t5, c6);
    let t7 = t6 + c7;
    lemma_assoc(x, t6, c7);
    let t8 = t7 + c8;
    lemma_assoc(x, t7, c8);
    let t9 = t8 + c9;
    lemma_assoc(x, t8, c9);
    let t10 = t9 + c10;
    lemma_assoc(x, t9, c10);
    let t11 = t10 + c11;
    lemma_assoc(x, t10, c11);
    let t12 = t11 + c12;
    lemma_assoc(x, t11, c12);
    let t13 = t12 + c13;
    lemma_assoc(x, t12, c13);
    let t14 = t13 + c14;
    lemma_assoc(x, t13, c14);
    let t15 = t14 + c15;
    lemma_assoc(x, t14, c15);
    let t16 = t15 + c16;
    lemma_assoc(x, t15, c16);
    let t17 = t16 + c17;
    lemma_assoc(x, t16, c17);
    let t18 = t17 + c18;
    lemma_assoc(x, t17, c18);
}

proof fn lemma_same_count(us: Seq<(Seq<char>, Use)>, vs: Seq<(Seq<char>, Use)>)
    requires
        us.len() == vs.len(),
        forall|j: int|
            0 <= j < us.len() ==> (#[trigger] us[j]).1.consumers@.len() == vs[j].1.consumers@.len(),
    ensures
        count_uses(us) == count_uses(vs),
    decreases us.len(),
{
    if us.len() > 0 {
        assert(us[us.len() - 1].1.consumers@.len() == vs[us.len() - 1].1.consumers@.len());
        assert forall|j: int| 0 <= j < us.drop_last().len() implies (
        #[trigger] us.drop_last()[j]).1.consumers@.len() == vs.drop_last()[j].1.consumers@.len() by {
            assert(us[j].1.consumers@.len() == vs[j].1.consumers@.len());
        }
        lemma_same_count(us.drop_last(), vs.drop_last());
    }
}

/// Two graphs that differ in nothing but the provider of one interface are written
/// differently.
pub proof fn law_a_provider_shows(
    components: nat,
    us: Seq<(Seq<char>, Use)>,
    vs: Seq<(Seq<char>, Use)>,
    i: int,
    orphans: Seq<(String, String)>,
    apps: Seq<App>,
    cs: Seq<(Seq<char>, Vec<String>)>,
    p: Seq<usize>,
)
    requires
        us.len() == vs.len(),
        0 <= i < us.len(),
        forall|j: int| 0 <= j < us.len() && j != i ==> #[trigger] us[j] == vs[j],
        us[i].0 == vs[i].0,
        us[i].1.consumers == vs[i].1.consumers,
        us[i].1.provider@ != vs[i].1.provider@,
    ensures
        json_of(components, us, orphans, apps, cs, p) != json_of(
            components,
            vs,
            orphans,
            apps,
            cs,
            p,
        ),
{
    let (a, b) = (
        json_of(components, us, orphans, apps, cs, p),
        json_of(components, vs, orphans, apps, cs, p),
    );
    if a == b {
        lemma_interfaces_first(components, us, orphans, apps, cs, p);
        lemma_interfaces_first(components, vs, orphans, apps, cs, p);
        assert forall|j: int| 0 <= j < us.len() implies (#[trigger] us[j]).1.consumers@.len()
            == vs[j].1.consumers@.len() by {}
        lemma_same_count(us, vs);
        let tail = after_interfaces(
            components,
            us.len(),
            count_uses(us),
            orphans.len(),
            join_of(orphans.map_values(|o: (String, String)| orphan_line(o)), ",\n"@),
            apps.len(),
            join_of(apps.map_values(|a: App| app_line(a)), ",\n"@),
            join_of(component_lines(cs, p), ",\n"@),
        );
        let (ls, ms) = (interface_lines(us), interface_lines(vs));
        lemma_between(
            "{\n  \"interfaces\": [\n"@,
            join_of(ls, ",\n"@),
            join_of(ms, ",\n"@),
            tail,
        );
        assert(ms =~= ls.update(i, ms[i]));
        let r = lemma_join_around(ls, i, ",\n"@);
        assert(join_of(ls.update(i, ms[i]), ",\n"@) == r.0 + ms[i] + r.1);
        lemma_between(r.0, ls[i], ms[i], r.1);
        let iface = us[i].0;
        let (q, t) = (us[i].1.provider@, vs[i].1.provider@);
        let before = "    { \"interface\": \""@ + iface + "\", \"provider\": \""@;
        let c1 = "\", \"consumers\": ["@;
        let c2 = quoted_list(strs(us[i].1.consumers@));
        let c3 = "], \"consumer_count\": "@;
        let c4 = dec_of(us[i].1.consumers@.len());
        let c5 = " }"@;
        lemma_tail_of_line(before + q, c1, c2, c3, c4, c5);
        lemma_tail_of_line(before + t, c1, c2, c3, c4, c5);
        assert(ls[i] == before + q + (c1 + c2 + c3 + c4 + c5));
        assert(ms[i] == before + t + (c1 + c2 + c3 + c4 + c5));
        lemma_between(before, q, t, c1 + c2 + c3 + c4 + c5);
    }
}

proof fn lemma_tail_of_line(
    x: Seq<char>,
    a: Seq<char>,
    b: Seq<char>,
    c: Seq<char>,
    d: Seq<char>,
    e: Seq<char>,
)
    ensures
        x + a + b + c + d + e == x + (a + b + c + d + e),
{
    lemma_assoc(x, a, b);
    lemma_assoc(x, a + b, c);
    lemma_assoc(x, a + b + c, d);
    lemma_assoc(x, a + b + c + d, e);
}

/// Every interface is read back from the text: behind its name stands the provider that
/// was collected for it, up to the closing quote, and behind that its consumers and how
/// many they are.
pub proof fn law_an_interface_is_read_back(
    components: nat,
    us: Seq<(Seq<char>, Use)>,
    i: int,
    orphans: Seq<(String, String)>,
    apps: Seq<App>,
    cs: Seq<(Seq<char>, Vec<String>)>,
    p: Seq<usize>,
)
    requires
        0 <= i < us.len(),
        !us[i].1.provider@.contains('"'),
    ensures
        exists|at: int| #[trigger]
            occurs_at(
                json_of(components, us, orphans, apps, cs, p),
                "{ \"interface\": \""@ + us[i].0 + "\", \"provider\": \""@,
                at,
            ) && ({
                let behind = json_of(components, us, orphans, apps, cs, p).skip(
                    at + ("{ \"interface\": \""@ + us[i].0 + "\", \"provider\": \""@).len(),
                );
                &&& before_char_of(behind, '"') == us[i].1.provider@
                &&& ("\", \"consumers\": ["@ + quoted_list(strs(us[i].1.consumers@))
                    + "], \"consumer_count\": "@ + dec_of(
                    us[i].1.consumers@.len(),
                ) + " }"@).is_prefix_of(behind.skip(us[i].1.provider@.len() as int))
            }),
{
    lemma_interfaces_first(components, us, orphans, apps, cs, p);
    let text = json_of(components, us, orphans, apps, cs, p);
    let ls = interface_lines(us);
    let r = lemma_join_around(ls, i, ",\n"@);
    let (iface, q) = (us[i].0, us[i].1.provider@);
    let label = "{ \"interface\": \""@ + iface + "\", \"provider\": \""@;
    let c1 = "\", \"consumers\": ["@;
    let c2 = quoted_list(strs(us[i].1.consumers@));
    let c3 = "], \"consumer_count\": "@;
    let c4 = dec_of(us[i].1.consumers@.len());
    let c5 = " }"@;
    let rest = c1 + c2 + c3 + c4 + c5;
    let first = "    { \"interface\": \""@;
    let line = first + iface + "\", \"provider\": \""@ + q + rest;
    lemma_tail_of_line(first + iface + "\", \"provider\": \""@ + q, c1, c2, c3, c4, c5);
    assert(ls[i] == line);
    let margin = "    "@;
    assert(first =~= margin + "{ \"interface\": \""@) by {
        reveal_strlit("    { \"interface\": \"");
        reveal_strlit("    ");
        reveal_strlit("{ \"interface\": \"");
    }
    assert(line == margin + label + (q + rest)) by {
        assert(line == margin + "{ \"interface\": \""@ + iface + "\", \"provider\": \""@ + q + rest);
        lemma_assoc(margin, "{ \"interface\": \""@, iface);
        lemma_assoc(margin, "{ \"interface\": \""@ + iface, "\", \"provider\": \""@);
        lemma_assoc(margin + label, q, rest);
    }
    let head = "{\n  \"interfaces\": [\n"@;
    let tail = after_interfaces(
        components,
        us.len(),
        count_uses(us),
        orphans.len(),
        join_of(orphans.map_values(|o: (String, String)| orphan_line(o)), ",\n"@),
        apps.len(),
        join_of(apps.map_values(|a: App| app_line(a)), ",\n"@),
        join_of(component_lines(cs, p), ",\n"@),
    );
    let before = head + r.0 + margin;
    let after = r.1 + tail;
    lemma_line_in_text(head, r.0, margin, label, q, rest, r.1, tail);
    assert(text == before + label + (q + rest + after));
    assert(rest.len() > 0 && rest[0] == '"') by {
        reveal_strlit("\", \"consumers\": [");
        assert(c1.len() > 0 && c1[0] == '"');
        assert(rest[0] == c1[0]);
    }
    lemma_quoted_read_back(before, label, q, rest, after);
    let at = before.len() as int;
    assert(occurs_at(text, label, at));
}

proof fn lemma_line_in_text(
    head: Seq<char>,
    a: Seq<char>,
    margin: Seq<char>,
    label: Seq<char>,
    q: Seq<char>,
    rest: Seq<char>,
    b: Seq<char>,
    tail: Seq<char>,
)
    ensures
        head + (a + (margin + label + (q + rest)) + b) + tail == (head + a + margin) + label + (q
            + rest + (b + tail)),
{
    let line = margin + label + (q + rest);
    lemma_assoc(head, a + line, b);
    lemma_assoc(head + (a + line), b, tail);
    lemma_assoc(head, a, line);
    lemma_assoc(head + a, margin + label, q + rest);
    lemma_assoc(head + a, margin, label);
    lemma_assoc((head + a + margin) + label, q + rest, b + tail);
}

fn write_interfaces(m: &TextMap<Use>) -> (out: String)
    ensures
        out@ == join_of(interface_lines(m.listed()), ",\n"@),
{
    let ghost want = interface_lines(m.listed());
    let mut items: Vec<String> = Vec::new();
    let mut i: usize = 0;
    assert(strs(items@) =~= want.take(0));
    while i < m.len()
        invariant
            i <= m.listed().len(),
            want == interface_lines(m.listed()),
            strs(items@) == want.take(i as int),
        decreases m.listed().len() - i,
    {
        let u = m.value_at(i);
        let list = write_list(&u.consumers);
        let n = dec(u.consumers.len() as u64);
        let t = "    { \"interface\": \"".to_string().concat(m.key_at(i).as_str()).concat(
            "\", \"provider\": \"",
        ).concat(u.provider.as_str()).concat("\", \"consumers\": [").concat(list.as_str()).concat(
            "], \"consumer_count\": ",
        ).concat(n.as_str()).concat(" }");
        let ghost o = items@;
        items.push(t);
        assert(strs(items@) =~= strs(o).push(t@));
        assert(want[i as int] == t@);
        assert(want.take(i + 1) =~= want.take(i as int).push(want[i as int]));
        i = i + 1;
    }
    assert(want.take(i as int) =~= want);
    join(&items, ",\n")
}

fn write_orphans(v: &Vec<(String, String)>) -> (out: String)
    ensures
        out@ == join_of(v@.map_values(|o: (String, String)| orphan_line(o)), ",\n"@),
{
    let ghost want = v@.map_values(|o: (String, String)| orphan_line(o));
    let mut items: Vec<String> = Vec::new();
    let mut i: usize = 0;
    assert(strs(items@) =~= want.take(0));
    while i < v.len()
        invariant
            i <= v.len(),
            want == v@.map_values(|o: (String, String)| orphan_line(o)),
            strs(items@) == want.take(i as int),
        decreases v.len() - i,
    {
        let t = "    { \"component\": \"".to_string().concat(v[i].0.as_str()).concat(
            "\", \"interface\": \"",
        ).concat(v[i].1.as_str()).concat("\" }");
        let ghost o = items@;
        items.push(t);
        assert(strs(items@) =~= strs(o).push(t@));
        assert(want.take(i + 1) =~= want.take(i as int).push(want[i as int]));
        i = i + 1;
    }
    assert(want.take(i as int) =~= want);
    join(&items, ",\n")
}

fn write_apps(v: &Vec<App>) -> (out: String)
    ensures
        out@ == join_of(v@.map_values(|a: App| app_line(a)), ",\n"@),
{
    let ghost want = v@.map_values(|a: App| app_line(a));
    let mut items: Vec<String> = Vec::new();
    let mut i: usize = 0;
    assert(strs(items@) =~= want.take(0));
    while i < v.len()
        invariant
            i <= v.len(),
            want == v@.map_values(|a: App| app_line(a)),
            strs(items@) == want.take(i as int),
        decreases v.len() - i,
    {
        let a = &v[i];
        let list = write_list(&a.parts);
        let t = "    { \"app\": \"".to_string().concat(a.name.as_str()).concat(
            "\", \"root\": \"",
        ).concat(a.root.as_str()).concat("\", \"artifact\": \"").concat(a.artifact.as_str()).concat(
            "\", \"composes\": [",
        ).concat(list.as_str()).concat("] }");
        let ghost o = items@;
        items.push(t);
        assert(strs(items@) =~= strs(o).push(t@));
        assert(want.take(i + 1) =~= want.take(i as int).push(want[i as int]));
        i = i + 1;
    }
    assert(want.take(i as int) =~= want);
    join(&items, ",\n")
}

fn write_components(m: &TextMap<Vec<String>>) -> (r: (String, Ghost<Seq<usize>>))
    ensures
        by_carriers(m.listed(), r.1@),
        r.0@ == join_of(component_lines(m.listed(), r.1@), ",\n"@),
{
    let mut keys: Vec<u64> = Vec::new();
    let mut i: usize = 0;
    while i < m.len()
        invariant
            i <= m.listed().len(),
            keys@.len() == i,
            forall|k: int|
                0 <= k < i ==> #[trigger] keys@[k] == u64::MAX - m.listed()[k].1@.len(),
        decreases m.listed().len() - i,
    {
        let n = m.value_at(i).len();
        keys.push(u64::MAX - n as u64);
        i = i + 1;
    }
    let p = stable_order(&keys);
    proof {
        assert forall|a: int, b: int| 0 <= a < b < p@.len() implies m.listed()[p@[a] as int].1@.len()
            > m.listed()[p@[b] as int].1@.len() || (m.listed()[p@[a] as int].1@.len()
            == m.listed()[p@[b] as int].1@.len() && p@[a] < p@[b]) by {
            assert(keys@[p@[a] as int] == u64::MAX - m.listed()[p@[a] as int].1@.len());
            assert(keys@[p@[b] as int] == u64::MAX - m.listed()[p@[b] as int].1@.len());
        }
    }
    let ghost want = component_lines(m.listed(), p@);
    let mut items: Vec<String> = Vec::new();
    let mut k: usize = 0;
    assert(strs(items@) =~= want.take(0));
    while k < p.len()
        invariant
            k <= p.len(),
            permutes(p@, m.listed().len() as int),
            want == component_lines(m.listed(), p@),
            strs(items@) == want.take(k as int),
        decreases p.len() - k,
    {
        let at = p[k];
        let apps = m.value_at(at);
        let list = write_list(apps);
        let n = dec(apps.len() as u64);
        let t = "    { \"component\": \"".to_string().concat(m.key_at(at).as_str()).concat(
            "\", \"app_count\": ",
        ).concat(n.as_str()).concat(", \"apps\": [").concat(list.as_str()).concat("] }");
        let ghost o = items@;
        items.push(t);
        assert(strs(items@) =~= strs(o).push(t@));
        assert(want[k as int] == t@);
        assert(want.take(k + 1) =~= want.take(k as int).push(want[k as int]));
        k = k + 1;
    }
    assert(want.take(k as int) =~= want);
    (join(&items, ",\n"), Ghost(p@))
}

proof fn lemma_uses_grow(us: Seq<(Seq<char>, Use)>, i: int)
    requires
        0 <= i <= us.len(),
    ensures
        count_uses(us.take(i)) <= count_uses(us),
    decreases us.len(),
{
    if i < us.len() {
        lemma_uses_grow(us.drop_last(), i);
        assert(us.drop_last().take(i) =~= us.take(i));
    } else {
        assert(us.take(i) =~= us);
    }
}

/// The graph as data: the interfaces and who uses each, the exports that nothing uses,
/// what each application is composed from, and which applications carry each component,
/// the most carried first.
pub fn json(
    components: u64,
    uses: &TextMap<Use>,
    orphans: &Vec<(String, String)>,
    apps: &Vec<App>,
) -> (out: String)
    requires
        count_uses(uses.listed()) <= u64::MAX,
    ensures
        exists|m: TextMap<Vec<String>>, p: Seq<usize>|
            m.wf() && carries(m@, apps@) && by_carriers(m.listed(), p) && out@
                == #[trigger] json_of(
                components as nat,
                uses.listed(),
                orphans@,
                apps@,
                m.listed(),
                p,
            ),
{
    let m = used_by(apps);
    let interfaces = write_interfaces(uses);
    let unused = write_orphans(orphans);
    let app_lines = write_apps(apps);
    let (component_text, p) = write_components(&m);
    let ghost us = uses.listed();
    let mut total: u64 = 0;
    let mut i: usize = 0;
    assert(us.take(0) =~= Seq::empty());
    while i < uses.len()
        invariant
            i <= us.len(),
            us == uses.listed(),
            count_uses(us) <= u64::MAX,
            total == count_uses(us.take(i as int)),
        decreases us.len() - i,
    {
        assert(us.take(i + 1).drop_last() =~= us.take(i as int));
        proof {
            lemma_uses_grow(us, i + 1);
        }
        total = total + uses.value_at(i).consumers.len() as u64;
        i = i + 1;
    }
    assert(us.take(i as int) =~= us);
    let out = "{\n  \"interfaces\": [\n".to_string().concat(interfaces.as_str()).concat(
        "\n  ],\n  \"exported_but_unconsumed\": [\n",
    ).concat(unused.as_str()).concat("\n  ],\n  \"apps\": [\n").concat(app_lines.as_str()).concat(
        "\n  ],\n  \"component_in_apps\": [\n",
    ).concat(component_text.as_str()).concat("\n  ],\n  \"stats\": {\n").concat(
        "    \"total_components\": ",
    ).concat(dec(components).as_str()).concat(",\n    \"total_interfaces\": ").concat(
        dec(uses.len() as u64).as_str(),
    ).concat(",\n    \"total_import_edges\": ").concat(dec(total).as_str()).concat(
        ",\n    \"unconsumed_exports\": ",
    ).concat(dec(orphans.len() as u64).as_str()).concat(",\n    \"total_apps\": ").concat(
        dec(apps.len() as u64).as_str(),
    ).concat("\n  }\n}");
    assert(out@ == json_of(components as nat, us, orphans@, apps@, m.listed(), p@));
    out
}

// ----------------------------------------------------------------- answers --

/// An interface that more than one component exports, how much their surfaces overlap
/// as a percentage, and what they share.
#[derive(Debug, PartialEq, Eq)]
pub struct Twin {
    pub interface: String,
    pub components: Vec<String>,
    pub overlap: String,
    pub shared: Vec<String>,
}

/// One twin in the report. A standard interface that everything exports is the shape of
/// the system and no duplicate.
pub open spec fn twin_line(t: Twin) -> Seq<char> {
    if "wasi:"@.is_prefix_of(t.interface@) {
        "  "@ + pad_end_of(t.interface@, 34) + " "@ + dec_of(t.components@.len())
            + " components export it — a standard entry point, not a duplicate"@
    } else {
        "  "@ + pad_end_of(t.interface@, 34) + " "@ + join_of(strs(t.components@), ", "@)
            + "\n      overlap "@ + t.overlap@ + "%  shared: "@ + if t.shared@.len() > 1 {
            join_of(strs(t.shared@), ", "@)
        } else {
            "(only this one)"@
        }
    }
}

/// One twin in the report.
pub fn twin(t: &Twin) -> (out: String)
    ensures
        out@ == twin_line(*t),
{
    let name = pad_end(t.interface.as_str(), 34);
    if starts_with(t.interface.as_str(), "wasi:") {
        "  ".to_string().concat(name.as_str()).concat(" ").concat(
            dec(t.components.len() as u64).as_str(),
        ).concat(" components export it — a standard entry point, not a duplicate")
    } else {
        let who = join(&t.components, ", ");
        let shared = if t.shared.len() > 1 {
            join(&t.shared, ", ")
        } else {
            "(only this one)".to_string()
        };
        "  ".to_string().concat(name.as_str()).concat(" ").concat(who.as_str()).concat(
            "\n      overlap ",
        ).concat(t.overlap.as_str()).concat("%  shared: ").concat(shared.as_str())
    }
}

/// The lines of some twins, in order.
pub open spec fn twin_lines(ts: Seq<Twin>) -> Seq<Seq<char>>
    decreases ts.len(),
{
    if ts.len() == 0 {
        Seq::empty()
    } else {
        twin_lines(ts.drop_last()).push(twin_line(ts.last()))
    }
}

/// What is said where nothing was built twice.
pub open spec fn no_twins(components: nat) -> Seq<char> {
    "no interface in the catalogue is exported by more than one component.\n\nThat is a finding, not a blank: "@
        + dec_of(components) + " components, and nothing was built twice."@
}

/// What comes before the twins.
pub open spec fn twins_heading(n: nat) -> Seq<char> {
    dec_of(n)
        + " interface(s) exported by more than one component, most-overlapping first.\n\nA pair is not automatically a mistake — a reference and its mock share an \ninterface on purpose. What to look at is `shared`: two components that agree \non ONE interface may be alternatives, two that agree on their whole surface \nare the same component written twice.\n"@
}

/// What comes after them.
pub open spec fn twins_ending() -> Seq<char> {
    "\nNote: `comp-plug` picks a single exporter per interface by scan order. For each line above,\nwhichever component sorts first is what every composition silently gets."@
}

/// The report on what more than one component exports: one line where nothing is, or the
/// twins between a heading and an ending.
pub open spec fn twins_report(ts: Seq<Twin>, components: nat) -> Seq<Seq<char>> {
    if ts.len() == 0 {
        seq![no_twins(components)]
    } else {
        seq![twins_heading(ts.len())] + twin_lines(ts) + seq![twins_ending()]
    }
}

/// The report on what more than one component exports.
pub fn twins(ts: &Vec<Twin>, components: u64) -> (out: Vec<String>)
    ensures
        strs(out@) == twins_report(ts@, components as nat),
{
    let mut out: Vec<String> = Vec::new();
    if ts.len() == 0 {
        out.push(
            "no interface in the catalogue is exported by more than one component.\n\nThat is a finding, not a blank: ".to_string().concat(
            dec(components).as_str(),
        ).concat(" components, and nothing was built twice."));
        assert(strs(out@) =~= twins_report(ts@, components as nat));
        return out;
    }
    out.push(
        dec(ts.len() as u64).concat(
            " interface(s) exported by more than one component, most-overlapping first.\n\nA pair is not automatically a mistake — a reference and its mock share an \ninterface on purpose. What to look at is `shared`: two components that agree \non ONE interface may be alternatives, two that agree on their whole surface \nare the same component written twice.\n",
        ),
    );
    let ghost top = strs(out@);
    assert(top =~= seq![twins_heading(ts@.len())]);
    let mut i: usize = 0;
    assert(ts@.take(0) =~= Seq::empty());
    assert(top + twin_lines(ts@.take(0)) =~= top);
    while i < ts.len()
        invariant
            i <= ts.len(),
            strs(out@) == top + twin_lines(ts@.take(i as int)),
        decreases ts.len() - i,
    {
        assert(ts@.take(i + 1).drop_last() =~= ts@.take(i as int));
        let line = twin(&ts[i]);
        let ghost o = out@;
        out.push(line);
        assert(strs(out@) =~= strs(o).push(line@));
        assert(strs(out@) =~= top + twin_lines(ts@.take(i + 1)));
        i = i + 1;
    }
    assert(ts@.take(i as int) =~= ts@);
    let ghost o = out@;
    out.push(
        "\nNote: `comp-plug` picks a single exporter per interface by scan order. For each line above,\nwhichever component sorts first is what every composition silently gets.".to_string(),
    );
    assert(strs(out@) =~= strs(o) + seq![out@.last()@]);
    out
}

/// A capability that matches a wish: what it is called, how many applications carry it,
/// what it matched on, what it says of itself, and what it exports.
#[derive(Debug, PartialEq, Eq)]
pub struct Hit {
    pub name: String,
    pub apps: u64,
    pub because: Vec<String>,
    pub description: String,
    pub exports: Vec<String>,
}

/// The exports of a hit without their versions.
pub open spec fn plain_exports(v: Seq<Seq<char>>) -> Seq<Seq<char>> {
    v.map_values(|e: Seq<char>| before_char_of(e, '@'))
}

/// One hit in the answer.
pub open spec fn hit_text(h: Hit) -> Seq<char> {
    "  "@ + pad_end_of(h.name@, 20) + " "@ + pad_start_of(dec_of(h.apps as nat), 2)
        + " app(s)  matched on "@ + join_of(strs(h.because@), ", "@) + "\n      "@ + (
    if h.description@.len() == 0 {
        "(no `//!` description on the component)"@
    } else {
        h.description@
    }) + "\n      exports "@ + join_of(plain_exports(strs(h.exports@)), ", "@)
}

/// One hit in the answer.
pub fn hit(h: &Hit) -> (out: String)
    ensures
        out@ == hit_text(*h),
{
    let ghost want = plain_exports(strs(h.exports@));
    let mut plain: Vec<String> = Vec::new();
    let mut i: usize = 0;
    assert(strs(plain@) =~= want.take(0));
    while i < h.exports.len()
        invariant
            i <= h.exports.len(),
            want == plain_exports(strs(h.exports@)),
            strs(plain@) == want.take(i as int),
        decreases h.exports.len() - i,
    {
        let t = before_char(h.exports[i].as_str(), '@');
        let ghost o = plain@;
        plain.push(t);
        assert(strs(plain@) =~= strs(o).push(t@));
        assert(want.take(i + 1) =~= want.take(i as int).push(want[i as int]));
        i = i + 1;
    }
    assert(want.take(i as int) =~= want);
    let name = pad_end(h.name.as_str(), 20);
    let apps = dec(h.apps);
    let count = pad_start(apps.as_str(), 2);
    let why = join(&h.because, ", ");
    let exports = join(&plain, ", ");
    let said = if h.description.as_str().is_empty() {
        "(no `//!` description on the component)"
    } else {
        h.description.as_str()
    };
    "  ".to_string().concat(name.as_str()).concat(" ").concat(count.as_str()).concat(
        " app(s)  matched on ",
    ).concat(why.as_str()).concat("\n      ").concat(said).concat("\n      exports ").concat(
        exports.as_str(),
    )
}

/// How many hits are shown of those there are.
pub open spec fn shown(n: nat) -> nat {
    if n < 8 {
        n
    } else {
        8
    }
}

/// The answer to a wish.
pub open spec fn find_text(query: Seq<char>, hits: Seq<Hit>, pool: nat) -> Seq<Seq<char>> {
    if hits.len() == 0 {
        seq![
            "nothing in the catalogue matches "@ + debug_of(query)
                + ".\n\nThat is an answer: build it, and if it generalises, promote it (ADR-0089)."@,
        ]
    } else {
        seq![
            dec_of(hits.len()) + " of "@ + dec_of(pool) + " capabilities match "@ + debug_of(query)
                + ":\n"@,
        ] + hits.take(shown(hits.len()) as int).map_values(|h: Hit| hit_text(h))
    }
}

/// The answer to a wish, line by line: at most eight hits, the best first.
pub fn find(query: &str, hits: &Vec<Hit>, pool: u64) -> (out: Vec<String>)
    ensures
        strs(out@) == find_text(query@, hits@, pool as nat),
{
    let asked = debug(query);
    let mut out: Vec<String> = Vec::new();
    if hits.len() == 0 {
        out.push(
            "nothing in the catalogue matches ".to_string().concat(asked.as_str()).concat(
                ".\n\nThat is an answer: build it, and if it generalises, promote it (ADR-0089).",
            ),
        );
        assert(strs(out@) =~= find_text(query@, hits@, pool as nat));
        return out;
    }
    let n: usize = if hits.len() < 8 {
        hits.len()
    } else {
        8
    };
    out.push(
        dec(hits.len() as u64).concat(" of ").concat(dec(pool).as_str()).concat(
            " capabilities match ",
        ).concat(asked.as_str()).concat(":\n"),
    );
    let ghost head = strs(out@);
    let ghost want = hits@.take(n as int).map_values(|h: Hit| hit_text(h));
    let mut i: usize = 0;
    assert(strs(out@) =~= head + want.take(0));
    while i < n
        invariant
            i <= n <= hits.len(),
            want == hits@.take(n as int).map_values(|h: Hit| hit_text(h)),
            strs(out@) == head + want.take(i as int),
        decreases n - i,
    {
        let t = hit(&hits[i]);
        let ghost o = out@;
        out.push(t);
        assert(strs(out@) =~= strs(o).push(t@));
        assert(want[i as int] == t@);
        assert(want.take(i + 1) =~= want.take(i as int).push(want[i as int]));
        assert(head + want.take(i + 1) =~= (head + want.take(i as int)).push(want[i as int]));
        i = i + 1;
    }
    assert(want.take(i as int) =~= want);
    assert(strs(out@) =~= find_text(query@, hits@, pool as nat));
    out
}

/// An application is written with its own name, root, artifact and parts, each under its label.
pub proof fn law_an_app_is_written_with_its_own(a: App)
    ensures
        holds(app_line(a), "    { \"app\": \""@ + a.name@ + "\", \"root\": \""@),
        holds(app_line(a), "\", \"root\": \""@ + a.root@ + "\", \"artifact\": \""@),
        holds(app_line(a), "\", \"artifact\": \""@ + a.artifact@ + "\", \"composes\": ["@),
        holds(app_line(a), "\", \"composes\": ["@ + quoted_list(strs(a.parts@)) + "] }"@),
{
    let c0 = "    { \"app\": \""@;
    let c1 = a.name@;
    let c2 = "\", \"root\": \""@;
    let c3 = a.root@;
    let c4 = "\", \"artifact\": \""@;
    let c5 = a.artifact@;
    let c6 = "\", \"composes\": ["@;
    let c7 = quoted_list(strs(a.parts@));
    let c8 = "] }"@;
    let s0 = c0;
    let s1 = s0 + c1;
    let s2 = s1 + c2;
    let s3 = s2 + c3;
    let s4 = s3 + c4;
    let s5 = s4 + c5;
    let s6 = s5 + c6;
    let s7 = s6 + c7;
    let s8 = s7 + c8;
    lemma_holds_itself(s2);
    lemma_holds_longer(s2, s2, c3);
    lemma_holds_longer(s3, s2, c4);
    lemma_holds_longer(s4, s2, c5);
    lemma_holds_longer(s5, s2, c6);
    lemma_holds_longer(s6, s2, c7);
    lemma_holds_longer(s7, s2, c8);
    lemma_assoc(s1, c2, c3);
    lemma_assoc(s1, c2 + c3, c4);
    lemma_holds_end(s1, c2 + c3 + c4);
    lemma_holds_longer(s4, c2 + c3 + c4, c5);
    lemma_holds_longer(s5, c2 + c3 + c4, c6);
    lemma_holds_longer(s6, c2 + c3 + c4, c7);
    lemma_holds_longer(s7, c2 + c3 + c4, c8);
    lemma_assoc(s3, c4, c5);
    lemma_assoc(s3, c4 + c5, c6);
    lemma_holds_end(s3, c4 + c5 + c6);
    lemma_holds_longer(s6, c4 + c5 + c6, c7);
    lemma_holds_longer(s7, c4 + c5 + c6, c8);
    lemma_assoc(s5, c6, c7);
    lemma_assoc(s5, c6 + c7, c8);
    lemma_holds_end(s5, c6 + c7 + c8);
}

/// An export that nothing uses is written with the component that exports it and the interface.
pub proof fn law_an_unused_export_is_written_with_its_owner(o: (String, String))
    ensures
        holds(orphan_line(o), "    { \"component\": \""@ + o.0@ + "\", \"interface\": \""@),
        holds(orphan_line(o), "\", \"interface\": \""@ + o.1@ + "\" }"@),
{
    let c0 = "    { \"component\": \""@;
    let c1 = o.0@;
    let c2 = "\", \"interface\": \""@;
    let c3 = o.1@;
    let c4 = "\" }"@;
    let s0 = c0;
    let s1 = s0 + c1;
    let s2 = s1 + c2;
    let s3 = s2 + c3;
    let s4 = s3 + c4;
    lemma_holds_itself(s2);
    lemma_holds_longer(s2, s2, c3);
    lemma_holds_longer(s3, s2, c4);
    lemma_assoc(s1, c2, c3);
    lemma_assoc(s1, c2 + c3, c4);
    lemma_holds_end(s1, c2 + c3 + c4);
}

/// A component is written with how many applications carry it, and which.
pub proof fn law_a_component_is_written_with_its_apps(component: Seq<char>, apps: Seq<Seq<char>>)
    ensures
        holds(component_line(component, apps), "    { \"component\": \""@ + component + "\", \"app_count\": "@),
        holds(component_line(component, apps), "\", \"app_count\": "@ + dec_of(apps.len()) + ", \"apps\": ["@),
        holds(component_line(component, apps), ", \"apps\": ["@ + quoted_list(apps) + "] }"@),
{
    let c0 = "    { \"component\": \""@;
    let c1 = component;
    let c2 = "\", \"app_count\": "@;
    let c3 = dec_of(apps.len());
    let c4 = ", \"apps\": ["@;
    let c5 = quoted_list(apps);
    let c6 = "] }"@;
    let s0 = c0;
    let s1 = s0 + c1;
    let s2 = s1 + c2;
    let s3 = s2 + c3;
    let s4 = s3 + c4;
    let s5 = s4 + c5;
    let s6 = s5 + c6;
    lemma_holds_itself(s2);
    lemma_holds_longer(s2, s2, c3);
    lemma_holds_longer(s3, s2, c4);
    lemma_holds_longer(s4, s2, c5);
    lemma_holds_longer(s5, s2, c6);
    lemma_assoc(s1, c2, c3);
    lemma_assoc(s1, c2 + c3, c4);
    lemma_holds_end(s1, c2 + c3 + c4);
    lemma_holds_longer(s4, c2 + c3 + c4, c5);
    lemma_holds_longer(s5, c2 + c3 + c4, c6);
    lemma_assoc(s3, c4, c5);
    lemma_assoc(s3, c4 + c5, c6);
    lemma_holds_end(s3, c4 + c5 + c6);
}

/// The statistics count the components, the interfaces, their uses, the exports that nothing
/// uses and the applications, each under its own label.
pub proof fn law_the_statistics_count_what_was_written(components: nat, us: Seq<(Seq<char>, Use)>, orphans: Seq<(String, String)>, apps: Seq<App>, cs: Seq<(Seq<char>, Vec<String>)>, p: Seq<usize>)
    ensures
        holds(json_of(components, us, orphans, apps, cs, p), "{\n  \"interfaces\": [\n"@ + join_of(interface_lines(us), ",\n"@) + "\n  ],\n  \"exported_but_unconsumed\": [\n"@),
        holds(json_of(components, us, orphans, apps, cs, p), "\n  ],\n  \"exported_but_unconsumed\": [\n"@ + join_of(orphans.map_values(|o: (String, String)| orphan_line(o)), ",\n"@) + "\n  ],\n  \"apps\": [\n"@),
        holds(json_of(components, us, orphans, apps, cs, p), "\n  ],\n  \"apps\": [\n"@ + join_of(apps.map_values(|a: App| app_line(a)), ",\n"@) + "\n  ],\n  \"component_in_apps\": [\n"@),
        holds(json_of(components, us, orphans, apps, cs, p), "\n  ],\n  \"component_in_apps\": [\n"@ + join_of(component_lines(cs, p), ",\n"@) + "\n  ],\n  \"stats\": {\n"@),
        holds(json_of(components, us, orphans, apps, cs, p), "    \"total_components\": "@ + dec_of(components) + ",\n    \"total_interfaces\": "@),
        holds(json_of(components, us, orphans, apps, cs, p), ",\n    \"total_interfaces\": "@ + dec_of(us.len()) + ",\n    \"total_import_edges\": "@),
        holds(json_of(components, us, orphans, apps, cs, p), ",\n    \"total_import_edges\": "@ + dec_of(count_uses(us)) + ",\n    \"unconsumed_exports\": "@),
        holds(json_of(components, us, orphans, apps, cs, p), ",\n    \"unconsumed_exports\": "@ + dec_of(orphans.len()) + ",\n    \"total_apps\": "@),
        holds(json_of(components, us, orphans, apps, cs, p), ",\n    \"total_apps\": "@ + dec_of(apps.len()) + "\n  }\n}"@),
{
    let c0 = "{\n  \"interfaces\": [\n"@;
    let c1 = join_of(interface_lines(us), ",\n"@);
    let c2 = "\n  ],\n  \"exported_but_unconsumed\": [\n"@;
    let c3 = join_of(orphans.map_values(|o: (String, String)| orphan_line(o)), ",\n"@);
    let c4 = "\n  ],\n  \"apps\": [\n"@;
    let c5 = join_of(apps.map_values(|a: App| app_line(a)), ",\n"@);
    let c6 = "\n  ],\n  \"component_in_apps\": [\n"@;
    let c7 = join_of(component_lines(cs, p), ",\n"@);
    let c8 = "\n  ],\n  \"stats\": {\n"@;
    let c9 = "    \"total_components\": "@;
    let c10 = dec_of(components);
    let c11 = ",\n    \"total_interfaces\": "@;
    let c12 = dec_of(us.len());
    let c13 = ",\n    \"total_import_edges\": "@;
    let c14 = dec_of(count_uses(us));
    let c15 = ",\n    \"unconsumed_exports\": "@;
    let c16 = dec_of(orphans.len());
    let c17 = ",\n    \"total_apps\": "@;
    let c18 = dec_of(apps.len());
    let c19 = "\n  }\n}"@;
    let s0 = c0;
    let s1 = s0 + c1;
    let s2 = s1 + c2;
    let s3 = s2 + c3;
    let s4 = s3 + c4;
    let s5 = s4 + c5;
    let s6 = s5 + c6;
    let s7 = s6 + c7;
    let s8 = s7 + c8;
    let s9 = s8 + c9;
    let s10 = s9 + c10;
    let s11 = s10 + c11;
    let s12 = s11 + c12;
    let s13 = s12 + c13;
    let s14 = s13 + c14;
    let s15 = s14 + c15;
    let s16 = s15 + c16;
    let s17 = s16 + c17;
    let s18 = s17 + c18;
    let s19 = s18 + c19;
    lemma_holds_itself(s2);
    lemma_holds_longer(s2, s2, c3);
    lemma_holds_longer(s3, s2, c4);
    lemma_holds_longer(s4, s2, c5);
    lemma_holds_longer(s5, s2, c6);
    lemma_holds_longer(s6, s2, c7);
    lemma_holds_longer(s7, s2, c8);
    lemma_holds_longer(s8, s2, c9);
    lemma_holds_longer(s9, s2, c10);
    lemma_holds_longer(s10, s2, c11);
    lemma_holds_longer(s11, s2, c12);
    lemma_holds_longer(s12, s2, c13);
    lemma_holds_longer(s13, s2, c14);
    lemma_holds_longer(s14, s2, c15);
    lemma_holds_longer(s15, s2, c16);
    lemma_holds_longer(s16, s2, c17);
    lemma_holds_longer(s17, s2, c18);
    lemma_holds_longer(s18, s2, c19);
    lemma_assoc(s1, c2, c3);
    lemma_assoc(s1, c2 + c3, c4);
    lemma_holds_end(s1, c2 + c3 + c4);
    lemma_holds_longer(s4, c2 + c3 + c4, c5);
    lemma_holds_longer(s5, c2 + c3 + c4, c6);
    lemma_holds_longer(s6, c2 + c3 + c4, c7);
    lemma_holds_longer(s7, c2 + c3 + c4, c8);
    lemma_holds_longer(s8, c2 + c3 + c4, c9);
    lemma_holds_longer(s9, c2 + c3 + c4, c10);
    lemma_holds_longer(s10, c2 + c3 + c4, c11);
    lemma_holds_longer(s11, c2 + c3 + c4, c12);
    lemma_holds_longer(s12, c2 + c3 + c4, c13);
    lemma_holds_longer(s13, c2 + c3 + c4, c14);
    lemma_holds_longer(s14, c2 + c3 + c4, c15);
    lemma_holds_longer(s15, c2 + c3 + c4, c16);
    lemma_holds_longer(s16, c2 + c3 + c4, c17);
    lemma_holds_longer(s17, c2 + c3 + c4, c18);
    lemma_holds_longer(s18, c2 + c3 + c4, c19);
    lemma_assoc(s3, c4, c5);
    lemma_assoc(s3, c4 + c5, c6);
    lemma_holds_end(s3, c4 + c5 + c6);
    lemma_holds_longer(s6, c4 + c5 + c6, c7);
    lemma_holds_longer(s7, c4 + c5 + c6, c8);
    lemma_holds_longer(s8, c4 + c5 + c6, c9);
    lemma_holds_longer(s9, c4 + c5 + c6, c10);
    lemma_holds_longer(s10, c4 + c5 + c6, c11);
    lemma_holds_longer(s11, c4 + c5 + c6, c12);
    lemma_holds_longer(s12, c4 + c5 + c6, c13);
    lemma_holds_longer(s13, c4 + c5 + c6, c14);
    lemma_holds_longer(s14, c4 + c5 + c6, c15);
    lemma_holds_longer(s15, c4 + c5 + c6, c16);
    lemma_holds_longer(s16, c4 + c5 + c6, c17);
    lemma_holds_longer(s17, c4 + c5 + c6, c18);
    lemma_holds_longer(s18, c4 + c5 + c6, c19);
    lemma_assoc(s5, c6, c7);
    lemma_assoc(s5, c6 + c7, c8);
    lemma_holds_end(s5, c6 + c7 + c8);
    lemma_holds_longer(s8, c6 + c7 + c8, c9);
    lemma_holds_longer(s9, c6 + c7 + c8, c10);
    lemma_holds_longer(s10, c6 + c7 + c8, c11);
    lemma_holds_longer(s11, c6 + c7 + c8, c12);
    lemma_holds_longer(s12, c6 + c7 + c8, c13);
    lemma_holds_longer(s13, c6 + c7 + c8, c14);
    lemma_holds_longer(s14, c6 + c7 + c8, c15);
    lemma_holds_longer(s15, c6 + c7 + c8, c16);
    lemma_holds_longer(s16, c6 + c7 + c8, c17);
    lemma_holds_longer(s17, c6 + c7 + c8, c18);
    lemma_holds_longer(s18, c6 + c7 + c8, c19);
    lemma_assoc(s8, c9, c10);
    lemma_assoc(s8, c9 + c10, c11);
    lemma_holds_end(s8, c9 + c10 + c11);
    lemma_holds_longer(s11, c9 + c10 + c11, c12);
    lemma_holds_longer(s12, c9 + c10 + c11, c13);
    lemma_holds_longer(s13, c9 + c10 + c11, c14);
    lemma_holds_longer(s14, c9 + c10 + c11, c15);
    lemma_holds_longer(s15, c9 + c10 + c11, c16);
    lemma_holds_longer(s16, c9 + c10 + c11, c17);
    lemma_holds_longer(s17, c9 + c10 + c11, c18);
    lemma_holds_longer(s18, c9 + c10 + c11, c19);
    lemma_assoc(s10, c11, c12);
    lemma_assoc(s10, c11 + c12, c13);
    lemma_holds_end(s10, c11 + c12 + c13);
    lemma_holds_longer(s13, c11 + c12 + c13, c14);
    lemma_holds_longer(s14, c11 + c12 + c13, c15);
    lemma_holds_longer(s15, c11 + c12 + c13, c16);
    lemma_holds_longer(s16, c11 + c12 + c13, c17);
    lemma_holds_longer(s17, c11 + c12 + c13, c18);
    lemma_holds_longer(s18, c11 + c12 + c13, c19);
    lemma_assoc(s12, c13, c14);
    lemma_assoc(s12, c13 + c14, c15);
    lemma_holds_end(s12, c13 + c14 + c15);
    lemma_holds_longer(s15, c13 + c14 + c15, c16);
    lemma_holds_longer(s16, c13 + c14 + c15, c17);
    lemma_holds_longer(s17, c13 + c14 + c15, c18);
    lemma_holds_longer(s18, c13 + c14 + c15, c19);
    lemma_assoc(s14, c15, c16);
    lemma_assoc(s14, c15 + c16, c17);
    lemma_holds_end(s14, c15 + c16 + c17);
    lemma_holds_longer(s17, c15 + c16 + c17, c18);
    lemma_holds_longer(s18, c15 + c16 + c17, c19);
    lemma_assoc(s16, c17, c18);
    lemma_assoc(s16, c17 + c18, c19);
    lemma_holds_end(s16, c17 + c18 + c19);
}

/// What was collected for an interface is what its edges say: the provider of its first edge,
/// and the consumer of each of its edges in their order.
pub proof fn law_what_was_collected_is_of_the_edges(
    m: Map<Seq<char>, Use>,
    es: Seq<Edge>,
    k: int,
    iface: Seq<char>,
)
    requires
        collects(m, es),
        0 <= k < es.len(),
        es[k].interface@ == iface,
        forall|j: int| 0 <= j < k ==> (#[trigger] es[j]).interface@ != iface,
    ensures
        m.contains_key(iface),
        m[iface].provider@ == es[k].provider@,
        strs(m[iface].consumers@) == es.filter(|e: Edge| e.interface@ == iface).map_values(
            |e: Edge| e.consumer@,
        ),
{
    assert(used(es, iface));
    assert(m.contains_key(iface));
    law_the_first_edge_names_the_provider(es, k);
    law_the_consumers_are_those_of_the_edges(es, iface);
}

/// An application is counted for a component as often as it lists it: once where it lists it
/// once, and not at all where it does not.
pub proof fn law_who_carries_a_component(apps: Seq<App>, part: Seq<char>, name: Seq<char>)
    ensures
        carriers(apps, part).contains(name) <==> exists|i: int|
            0 <= i < apps.len() && (#[trigger] apps[i]).name@ == name && strs(
                apps[i].parts@,
            ).contains(part),
    decreases apps.len(),
{
    if apps.len() > 0 {
        let p = apps.drop_last();
        law_who_carries_a_component(p, part, name);
        let a = apps.last();
        lemma_times_listed(strs(a.parts@), part);
        let (earlier, more) = (carriers(p, part), repeated(a.name@, times(strs(a.parts@), part)));
        let all = earlier + more;
        assert(apps[apps.len() - 1] == a);
        if earlier.contains(name) {
            let j = choose|j: int| 0 <= j < earlier.len() && earlier[j] == name;
            assert(all[j] == name);
            let i = choose|i: int|
                0 <= i < p.len() && (#[trigger] p[i]).name@ == name && strs(p[i].parts@).contains(
                    part,
                );
            assert(apps[i] == p[i]);
        }
        if more.len() > 0 {
            assert(all[earlier.len() as int] == a.name@);
        }
        if all.contains(name) && !earlier.contains(name) {
            let j = choose|j: int| 0 <= j < all.len() && all[j] == name;
            if j < earlier.len() {
                assert(earlier[j] == name);
            }
        }
        if exists|i: int|
            0 <= i < apps.len() && (#[trigger] apps[i]).name@ == name && strs(
                apps[i].parts@,
            ).contains(part) {
            let i = choose|i: int|
                0 <= i < apps.len() && (#[trigger] apps[i]).name@ == name && strs(
                    apps[i].parts@,
                ).contains(part);
            if i < p.len() {
                assert(p[i] == apps[i]);
            }
        }
    }
}

proof fn lemma_times_listed(v: Seq<Seq<char>>, t: Seq<char>)
    ensures
        times(v, t) > 0 <==> v.contains(t),
    decreases v.len(),
{
    if v.len() > 0 {
        lemma_times_listed(v.drop_last(), t);
        if v.drop_last().contains(t) {
            let i = choose|i: int| 0 <= i < v.drop_last().len() && v.drop_last()[i] == t;
            assert(v[i] == t);
        }
        if v.contains(t) && v.last() != t {
            let i = choose|i: int| 0 <= i < v.len() && v[i] == t;
            assert(v.drop_last()[i] == t);
        }
        assert(v[v.len() - 1] == v.last());
    }
}

/// A standard interface that many export is told as no duplicate; any other is told with who
/// exports it.
pub proof fn law_what_is_told_of_a_twin(t: Twin)
    ensures
        "wasi:"@.is_prefix_of(t.interface@) ==> " components export it — a standard entry point, not a duplicate"@.is_suffix_of(
            twin_line(t),
        ),
        !"wasi:"@.is_prefix_of(t.interface@) ==> holds(
            twin_line(t),
            "\n      overlap "@ + t.overlap@ + "%  shared: "@,
        ),
        !"wasi:"@.is_prefix_of(t.interface@) ==> holds(twin_line(t), join_of(strs(t.components@), ", "@)),
{
    if "wasi:"@.is_prefix_of(t.interface@) {
        let end = " components export it — a standard entry point, not a duplicate"@;
        let whole = twin_line(t);
        assert(whole.subrange(whole.len() - end.len(), whole.len() as int) =~= end);
    } else {
        let c0 = "  "@;
        let c1 = pad_end_of(t.interface@, 34);
        let c2 = " "@;
        let c3 = join_of(strs(t.components@), ", "@);
        let c4 = "\n      overlap "@;
        let c5 = t.overlap@;
        let c6 = "%  shared: "@;
        let c7 = if t.shared@.len() > 1 {
            join_of(strs(t.shared@), ", "@)
        } else {
            "(only this one)"@
        };
        let s2 = c0 + c1 + c2;
        lemma_holds_end(s2, c3);
        lemma_holds_longer(s2 + c3, c3, c4);
        lemma_holds_longer(s2 + c3 + c4, c3, c5);
        lemma_holds_longer(s2 + c3 + c4 + c5, c3, c6);
        lemma_holds_longer(s2 + c3 + c4 + c5 + c6, c3, c7);
        lemma_assoc(s2 + c3, c4, c5);
        lemma_assoc(s2 + c3, c4 + c5, c6);
        lemma_holds_end(s2 + c3, c4 + c5 + c6);
        lemma_holds_longer(s2 + c3 + c4 + c5 + c6, c4 + c5 + c6, c7);
    }
}

/// A wish is answered with the first eight that match, in their order, behind how many there
/// are; or with one line where nothing does.
pub proof fn law_a_wish_is_answered_with_the_first_eight(query: Seq<char>, hits: Seq<Hit>, pool: nat, i: int)
    ensures
        hits.len() == 0 ==> find_text(query, hits, pool).len() == 1,
        hits.len() > 0 ==> find_text(query, hits, pool).len() == 1 + (if hits.len() < 8 {
            hits.len() as int
        } else {
            8
        }),
        0 <= i < hits.len() && i < 8 ==> find_text(query, hits, pool)[1 + i] == hit_text(hits[i]),
{
}

/// Twins are told between a heading that counts them and an ending, each in its place; where
/// nothing was built twice, that is told instead.
pub proof fn law_twins_are_told_in_their_order(ts: Seq<Twin>, components: nat, i: int)
    ensures
        ts.len() == 0 ==> twins_report(ts, components) == seq![no_twins(components)],
        ts.len() > 0 ==> twins_report(ts, components).len() == ts.len() + 2,
        0 <= i < ts.len() ==> twins_report(ts, components)[1 + i] == twin_line(ts[i]),
        ts.len() > 0 ==> dec_of(ts.len()).is_prefix_of(twins_report(ts, components)[0]),
{
    lemma_twin_lines(ts, i);
    if ts.len() > 0 {
        let h = twins_heading(ts.len());
        let d = dec_of(ts.len());
        assert(h.subrange(0, d.len() as int) =~= d);
    }
}

proof fn lemma_twin_lines(ts: Seq<Twin>, i: int)
    ensures
        twin_lines(ts).len() == ts.len(),
        0 <= i < ts.len() ==> twin_lines(ts)[i] == twin_line(ts[i]),
    decreases ts.len(),
{
    if ts.len() > 0 {
        lemma_twin_lines(ts.drop_last(), i);
    }
}

/// Components are written by how many applications carry them, the most first.
pub proof fn law_the_most_carried_come_first(cs: Seq<(Seq<char>, Vec<String>)>, p: Seq<usize>, a: int, b: int)
    requires
        by_carriers(cs, p),
        0 <= a < b < p.len(),
    ensures
        component_lines(cs, p).len() == cs.len(),
        component_lines(cs, p)[a] == component_line(cs[p[a] as int].0, strs(cs[p[a] as int].1@)),
        cs[p[a] as int].1@.len() >= cs[p[b] as int].1@.len(),
{
}

/// A hit is told by its name, how many applications carry it, what it matched on, and what it
/// exports.
pub proof fn law_a_hit_is_told_whole(h: Hit)
    ensures
        holds(hit_text(h), "  "@ + pad_end_of(h.name@, 20) + " "@),
        holds(hit_text(h), pad_start_of(dec_of(h.apps as nat), 2) + " app(s)  matched on "@ + join_of(strs(h.because@), ", "@) + "\n      "@),
        holds(hit_text(h), "\n      "@ + (if h.description@.len() == 0 {
        "(no `//!` description on the component)"@
    } else {
        h.description@
    }) + "\n      exports "@),
        holds(hit_text(h), "\n      exports "@ + join_of(plain_exports(strs(h.exports@)), ", "@)),
{
    let c0 = "  "@;
    let c1 = pad_end_of(h.name@, 20);
    let c2 = " "@;
    let c3 = pad_start_of(dec_of(h.apps as nat), 2);
    let c4 = " app(s)  matched on "@;
    let c5 = join_of(strs(h.because@), ", "@);
    let c6 = "\n      "@;
    let c7 = (if h.description@.len() == 0 {
        "(no `//!` description on the component)"@
    } else {
        h.description@
    });
    let c8 = "\n      exports "@;
    let c9 = join_of(plain_exports(strs(h.exports@)), ", "@);
    let s0 = c0;
    let s1 = s0 + c1;
    let s2 = s1 + c2;
    let s3 = s2 + c3;
    let s4 = s3 + c4;
    let s5 = s4 + c5;
    let s6 = s5 + c6;
    let s7 = s6 + c7;
    let s8 = s7 + c8;
    let s9 = s8 + c9;
    lemma_holds_itself(s2);
    lemma_holds_longer(s2, s2, c3);
    lemma_holds_longer(s3, s2, c4);
    lemma_holds_longer(s4, s2, c5);
    lemma_holds_longer(s5, s2, c6);
    lemma_holds_longer(s6, s2, c7);
    lemma_holds_longer(s7, s2, c8);
    lemma_holds_longer(s8, s2, c9);
    lemma_assoc(s2, c3, c4);
    lemma_assoc(s2, c3 + c4, c5);
    lemma_assoc(s2, c3 + c4 + c5, c6);
    lemma_holds_end(s2, c3 + c4 + c5 + c6);
    lemma_holds_longer(s6, c3 + c4 + c5 + c6, c7);
    lemma_holds_longer(s7, c3 + c4 + c5 + c6, c8);
    lemma_holds_longer(s8, c3 + c4 + c5 + c6, c9);
    lemma_assoc(s5, c6, c7);
    lemma_assoc(s5, c6 + c7, c8);
    lemma_holds_end(s5, c6 + c7 + c8);
    lemma_holds_longer(s8, c6 + c7 + c8, c9);
    lemma_assoc(s7, c8, c9);
    lemma_holds_end(s7, c8 + c9);
}

} // verus!

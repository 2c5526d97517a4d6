use comp_tools::forward::{
    activated, activated_by, activation_error, all_failed, backend_uri, gate, host_of_header, load_json, load_key, not_placed, order, pick, rank,
    refresh_secs, saturated, shed, Busy, Gate, InFlight, Tried, Walk,
};
use comp_tools::ingress::{
    census, notes, refresh, table_of, verdict, Backend, Balance, NodeInventory, RunningInstance, Table, Verdict,
    EMPTY_READS_BEFORE_BELIEVING,
};
use comp_tools::json::parse;
use comp_tools::text_map::TextMap;

fn node(name: &str, addr: &str, hosts: &[&str]) -> NodeInventory {
    NodeInventory {
        node: name.into(),
        address: addr.into(),
        cpus: 0,
        instances: hosts.iter().map(|h| instance(Some(h))).collect(),
    }
}

fn instance(host: Option<&str>) -> RunningInstance {
    RunningInstance {
        tenant: "alice".into(),
        app: "shop".into(),
        component: "api".into(),
        digest: "sha256:a".into(),
        count: 1,
        ingress_host: host.map(|h| h.to_string()),
    }
}

fn routes<'a>(t: &'a Table, host: &str) -> &'a Vec<Backend> {
    t.routes.get(host).expect("routed")
}

fn loads(b: &Vec<Backend>, pairs: &[(&str, u64)]) -> Vec<u64> {
    b.iter().map(|x| pairs.iter().find(|(n, _)| *n == x.node).map(|(_, v)| *v).unwrap_or(0)).collect()
}

fn backend(n: &str) -> Backend {
    Backend { node: n.into(), address: "127.0.0.1:1".into(), cpus: 1 }
}

#[test]
fn every_node_running_an_app_becomes_a_backend_for_it() {
    let t = table_of(&vec![
        node("n1", "10.0.0.1:3401", &["shop.alice.test"]),
        node("n2", "10.0.0.2:3401", &["shop.alice.test"]),
        node("n3", "10.0.0.3:3401", &["other.bob.test"]),
    ]);
    assert_eq!(routes(&t, "shop.alice.test").len(), 2);
    assert_eq!(routes(&t, "other.bob.test").len(), 1);
    assert_eq!(routes(&t, "shop.alice.test")[0].node, "n1");
}

#[test]
fn a_node_holding_two_replicas_is_still_one_backend() {
    let n = node("n1", "10.0.0.1:3401", &["shop.alice.test", "shop.alice.test"]);
    assert_eq!(routes(&table_of(&vec![n]), "shop.alice.test").len(), 1);
}

#[test]
fn a_node_with_no_advertised_address_is_skipped() {
    let t = table_of(&vec![node("n1", "", &["shop.alice.test"])]);
    assert!(t.routes.is_empty());
}

#[test]
fn the_rotation_is_stable_across_refreshes() {
    let a = table_of(&vec![
        node("n2", "10.0.0.2:3401", &["shop.alice.test"]),
        node("n1", "10.0.0.1:3401", &["shop.alice.test"]),
    ]);
    let b = table_of(&vec![
        node("n1", "10.0.0.1:3401", &["shop.alice.test"]),
        node("n2", "10.0.0.2:3401", &["shop.alice.test"]),
    ]);
    assert_eq!(a, b);
}

#[test]
fn an_instance_that_serves_no_ingress_host_is_not_a_backend() {
    let mut n = node("n1", "10.0.0.1:3401", &[]);
    n.instances.push(instance(None));
    n.instances.push(instance(Some("")));
    assert!(table_of(&vec![n]).routes.is_empty());
}

#[test]
fn hosts_are_matched_in_small_letters_and_no_cores_count_as_one() {
    let t = table_of(&vec![node("n1", "a", &["Shop.Test"])]);
    assert_eq!(routes(&t, "shop.test")[0].cpus, 1);
    assert!(t.routes.get("Shop.Test").is_none());
}

#[test]
fn least_outstanding_avoids_the_backend_that_is_falling_behind() {
    let t = table_of(&vec![
        node("fast-1", "10.0.0.1:1", &["a.test"]),
        node("fast-2", "10.0.0.2:1", &["a.test"]),
        node("slow", "10.0.0.3:1", &["a.test"]),
    ]);
    let b = routes(&t, "a.test");
    let inflight = loads(b, &[("fast-1", 0), ("fast-2", 1), ("slow", 40)]);
    for next in 0..6 {
        let picked = order(b, &inflight, Balance::LeastOutstanding, next);
        assert_ne!(picked[0].node, "slow", "the backed-up node must not be first");
    }
}

#[test]
fn least_outstanding_still_spreads_when_every_backend_is_idle() {
    let t = table_of(&vec![
        node("n1", "10.0.0.1:1", &["a.test"]),
        node("n2", "10.0.0.2:1", &["a.test"]),
        node("n3", "10.0.0.3:1", &["a.test"]),
    ]);
    let b = routes(&t, "a.test");
    let inflight = loads(b, &[("n1", 0), ("n2", 0), ("n3", 0)]);
    let mut seen = std::collections::BTreeSet::new();
    for next in 0..3 {
        seen.insert(order(b, &inflight, Balance::LeastOutstanding, next)[0].node.clone());
    }
    assert_eq!(seen.len(), 3, "an idle fleet must still rotate, got {seen:?}");
}

#[test]
fn a_busy_guard_cannot_leak_a_count() {
    let mut inflight = InFlight::new();
    let b = Busy::on(&mut inflight, "n1");
    assert_eq!(inflight.counter("n1"), 1);
    b.end(&mut inflight);
    assert_eq!(inflight.counter("n1"), 0, "the guard must decrement at its end");
}

#[test]
fn the_retry_uses_the_same_ranking_rather_than_a_second_rule() {
    let t = table_of(&vec![
        node("n1", "10.0.0.1:1", &["a.test"]),
        node("n2", "10.0.0.2:1", &["a.test"]),
        node("n3", "10.0.0.3:1", &["a.test"]),
    ]);
    let b = routes(&t, "a.test");
    let inflight = loads(b, &[("n1", 5), ("n2", 0), ("n3", 2)]);
    let picked = order(b, &inflight, Balance::LeastOutstanding, 0);
    assert_eq!(picked[0].node, "n2");
    assert_eq!(picked[1].node, "n3", "the retry is the next best, not the first");
}

#[test]
fn round_robin_visits_every_backend_before_repeating() {
    let t = table_of(&vec![
        node("n1", "10.0.0.1:3401", &["shop.alice.test"]),
        node("n2", "10.0.0.2:3401", &["shop.alice.test"]),
        node("n3", "10.0.0.3:3401", &["shop.alice.test"]),
    ]);
    let b = routes(&t, "shop.alice.test");
    let none = vec![0, 0, 0];
    let picked: Vec<&str> =
        (0..3).map(|i| order(b, &none, Balance::RoundRobin, i)[0].node.as_str()).collect();
    assert_eq!(picked, vec!["n1", "n2", "n3"]);
    assert_eq!(order(b, &none, Balance::RoundRobin, 3)[0].node, "n1", "and then it wraps");
}

#[test]
fn a_node_at_the_bound_is_saturated_and_zero_disables_the_rule() {
    assert!(!saturated(&backend("n1"), 63, 64), "63 of 64 still has room");
    assert!(saturated(&backend("n2"), 64, 64), "at the bound is saturated");
    assert!(saturated(&backend("n3"), 999, 64));
    assert!(!saturated(&backend("n3"), 999, 0), "0 must disable shedding entirely");
    let eight = Backend { cpus: 8, ..backend("n4") };
    assert!(!saturated(&eight, 511, 64), "the bound is per core");
    assert!(saturated(&eight, 512, 64));
}

#[test]
fn shedding_steers_around_a_hot_node_before_it_refuses_anything() {
    let full = vec![saturated(&backend("hot"), 64, 64), saturated(&backend("cool"), 0, 64)];
    assert_eq!(gate(&full), Gate::Walk, "one hot node must not shed the whole app");
    let mut w = Walk::new(rank(&vec![64, 0], Balance::RoundRobin, 0));
    assert_eq!(w.next(&full, 2), Some(1), "traffic goes to the replica with room");
    assert_eq!(w.next(&full, 2), None);
}

#[test]
fn a_fully_saturated_app_sheds_rather_than_queueing() {
    let full = vec![saturated(&backend("n1"), 64, 64), saturated(&backend("n2"), 70, 64)];
    assert!(full.iter().all(|f| *f));
    assert_eq!(gate(&full), Gate::Shed);
    assert_eq!(gate(&vec![]), Gate::Activate);
}

#[test]
fn a_walk_skips_the_dead_for_free_and_pays_for_the_slow() {
    let full = vec![false; 5];
    let mut w = Walk::new(vec![4, 3, 2, 1, 0]);
    for want in [4, 3] {
        assert_eq!(w.next(&full, 2), Some(want));
        w.note("n", &Tried::Refused("reset".into()));
    }
    assert_eq!(w.last, "n refused: reset");
    for want in [2, 1] {
        assert_eq!(w.next(&full, 2), Some(want));
        w.note("n", &Tried::TimedOut);
    }
    assert_eq!(w.last, "n timed out");
    assert_eq!(w.next(&full, 2), None, "the budget is spent");
}

#[test]
fn the_answers_name_the_host() {
    assert_eq!(not_placed("a.test"), (503, "no replica of \"a.test\" is currently placed\n".to_string()));
    assert_eq!(shed("a.test", 64).1, "every replica of \"a.test\" is at 64 in flight; shedding\n");
    assert_eq!(all_failed("a\n", "x").1, "every replica of \"a\\n\" failed; last: x\n");
    assert_eq!(host_of_header(Some("Shop.Test:8088")), "shop.test");
    assert_eq!(host_of_header(None), "");
    assert_eq!(backend_uri("10.0.0.1:1", Some("/a?b")), "http://10.0.0.1:1/a?b");
    assert_eq!(backend_uri("10.0.0.1:1", None), "http://10.0.0.1:1/");
    assert_eq!(load_key("shop.eve.test"), "shop_eve_test");
    assert_eq!(load_json("h", 1, 2, 3).field("served").unwrap().number(), Some(3));
}

#[test]
fn an_activation_reply_is_a_backend_or_nothing() {
    let r = parse(r#"{"node":"n1","address":"127.0.0.1:9","cpus":4}"#).unwrap();
    let b = activated(&r).unwrap();
    assert_eq!((b.node.as_str(), b.address.as_str(), b.cpus), ("n1", "127.0.0.1:9", 4));
    let one = parse(r#"{"node":"n1","address":"a"}"#).unwrap();
    assert_eq!(activated(&one).unwrap().cpus, 1);
    assert!(activated(&parse(r#"{"node":"n1","address":"a","error":"no"}"#).unwrap()).is_none());
    assert!(activated(&parse(r#"{"node":"n1"}"#).unwrap()).is_none());
    assert!(activated(&parse("[]").unwrap()).is_none());
}

#[test]
fn a_published_replica_is_found_by_the_next_request() {
    let mut t = Table { routes: TextMap::new() };
    assert!(t.first("shop.example.com").is_none());
    t.publish("shop.example.com", &backend("n1"));
    assert_eq!(t.first("shop.example.com").unwrap().node, "n1");
    t.publish("shop.example.com", &backend("n2"));
    assert_eq!(routes(&t, "shop.example.com").len(), 2);
    assert_eq!(t.first("shop.example.com").unwrap().node, "n1");
}

#[test]
fn a_refresh_is_a_third_of_the_life_unless_it_is_set() {
    assert_eq!(refresh_secs(None, 15), 5);
    assert_eq!(refresh_secs(None, 2), 1);
    assert_eq!(refresh_secs(Some(0), 15), 1);
    assert_eq!(refresh_secs(Some(9), 15), 9);
    assert_eq!(pick(Some(1), Some(2), 3), 1);
    assert_eq!(pick(None, Some(2), 3), 2);
    assert_eq!(pick(None, None, 3), 3);
}

#[test]
fn a_blink_does_not_empty_a_working_table() {
    assert_eq!(verdict(true, true, 0), Verdict::RideOut);
    assert_eq!(verdict(true, true, 1), Verdict::RideOut);
}

#[test]
fn an_empty_fleet_is_believed_in_the_end() {
    assert_eq!(verdict(true, true, EMPTY_READS_BEFORE_BELIEVING - 1), Verdict::Believe);
    assert_eq!(verdict(true, true, EMPTY_READS_BEFORE_BELIEVING), Verdict::Believe);
}

#[test]
fn a_good_read_is_always_adopted_and_clears_the_streak() {
    assert_eq!(verdict(true, false, 0), Verdict::Adopt);
    assert_eq!(verdict(true, false, 99), Verdict::Adopt);
    assert_eq!(verdict(false, false, 2), Verdict::Adopt);
    assert_eq!(refresh(true, false, 2), (Verdict::Adopt, 0, true));
}

#[test]
fn nothing_to_lose_means_nothing_to_defend() {
    assert_eq!(verdict(false, true, 0), Verdict::Adopt);
    assert_eq!(verdict(false, true, 5), Verdict::Adopt);
}

#[test]
fn the_guard_is_about_routes_not_about_nodes() {
    assert_eq!(verdict(true, true, 0), Verdict::RideOut);
}

#[test]
fn a_working_ingress_survives_two_bad_reads_and_recovers_on_the_third() {
    let mut streak = 0;
    let mut routes = true;

    for _ in 0..2 {
        match verdict(routes, true, streak) {
            Verdict::RideOut => streak += 1,
            other => panic!("a blink should be ridden out, got {other:?}"),
        }
        assert!(routes, "the table must still be there");
    }
    assert_eq!(verdict(routes, false, streak), Verdict::Adopt);
    streak = 0;
    routes = true;
    assert_eq!(streak, 0);
    assert!(routes);
}

#[test]
fn three_bad_reads_running_are_believed() {
    let mut streak = 0;
    let mut verdicts = Vec::new();
    for _ in 0..3 {
        let v = verdict(true, true, streak);
        streak += 1;
        verdicts.push(v);
    }
    assert_eq!(
        verdicts,
        vec![Verdict::RideOut, Verdict::RideOut, Verdict::Believe],
        "two rides then belief — a fleet that has genuinely gone must not be \
         routed to forever"
    );
}

#[test]
fn a_read_is_told_in_numbers() {
    let mut bare = node("b", "", &["x"]);
    bare.instances.push(instance(None));
    bare.instances.push(instance(Some("")));
    let c = census(&vec![node("a", "1.2.3.4:1", &[]), bare]);
    assert_eq!((c.nodes, c.addressed, c.instances, c.hosted), (2, 1, 3, 1));
    assert_eq!(
        notes(&c, 7, 0, false, Verdict::Adopt, 0),
        [
            "comp-ingress: refresh #7: 2 node(s), 3 instance(s), 0 route(s)",
            "comp-ingress: still 0 routes from 2 node(s) — 1 with an address, 3 instance(s), 1 carrying an ingress-host",
        ]
    );
    assert_eq!(
        notes(&c, 8, 0, true, Verdict::RideOut, 1)[1],
        "comp-ingress: a read produced 0 routes from 2 node(s) and 3 instance(s) (1/3) — keeping the table it had"
    );
    assert_eq!(
        notes(&c, 9, 0, true, Verdict::Believe, 3)[1],
        "comp-ingress: 0 routes for 3 reads running — the fleet really has nothing to serve"
    );
    assert_eq!(notes(&c, 9, 4, true, Verdict::Adopt, 0).len(), 1);
}

#[test]
fn an_activation_reply_is_read_as_it_came() {
    let b = activated_by(br#"{"node":"n1","address":"a:1","cpus":4}"#).unwrap();
    assert_eq!((b.node.as_str(), b.address.as_str(), b.cpus), ("n1", "a:1", 4));
    assert!(activated_by(b"nope").is_none());
    assert!(activated_by(br#"{"error":"full"}"#).is_none());
    assert_eq!(activation_error(br#"{"error":"full"}"#), Some("full".to_string()));
    assert_eq!(activation_error(b"{}"), None);
    assert_eq!(activation_error(b"nope"), None);
}

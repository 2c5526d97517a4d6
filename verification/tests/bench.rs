use comp_tools::bench::{answers, bucket, by_node, coldstart, converge, converge_all, counts, distributions, event_line, fleet, greatest, inventory, least, load_lines, marks, measured_errors, median, pause, replicas, samples, snapshots, sort_events, start, summarise, tenants, tenants_of, total, window, windows, Ended, Mark, Start};
use comp_tools::json::{parse, Json};
use comp_tools::text_map::TextMap;

fn document(text: &str) -> Json {
    parse(text).expect("a document")
}

fn texts(v: &[&str]) -> Vec<String> {
    v.iter().map(|s| s.to_string()).collect()
}

fn mark(at: u64, what: &str) -> Mark {
    Mark { at, what: what.to_string() }
}

#[test]
fn counts_are_read_or_there_are_none() {
    let j = document(r#"{"200":5,"503":2}"#);
    assert_eq!(counts(Some(&j)), vec![("200".to_string(), 5), ("503".to_string(), 2)]);
    assert!(counts(Some(&document(r#"{"200":"5"}"#))).is_empty());
    assert!(counts(None).is_empty());
}

#[test]
fn every_answer_is_counted_once() {
    let codes = vec![("200".to_string(), 90), ("204".to_string(), 5), ("503".to_string(), 7)];
    let errs = vec![("aborted due to deadline".to_string(), 20), ("connection reset".to_string(), 3)];
    assert_eq!(total(&codes), Some(102));
    let e = summarise(&codes, &errs);
    assert_eq!(e, Ended { ok: 95, non2xx: 7, transport: 3, aborted: 20 });
    assert!(!measured_errors(&e));
    assert!(measured_errors(&Ended { ok: 0, non2xx: 1, transport: 0, aborted: 0 }));
    assert_eq!(total(&vec![("a".to_string(), u64::MAX), ("b".to_string(), 1)]), None);
}

#[test]
fn a_start_is_read_out_of_a_hosts_log() {
    let line = "started acme/app in 1234 us (fetch 10 us, cache-load 20 us, link 30 us)";
    assert_eq!(start(line), Some((Start { total: 1234, fetch: 10, build: 20, link: 30 }, true)));
    assert_eq!(start("started acme/app"), None);
    let log = format!("{line}\nnoise\nstarted b in 9 us (fetch 1 us, compile 2 us, link 3 us)\n");
    let (cold, warm) = coldstart(&log);
    assert_eq!(cold, vec![Start { total: 9, fetch: 1, build: 2, link: 3 }]);
    assert_eq!(warm, vec![Start { total: 1234, fetch: 10, build: 20, link: 30 }]);
}

#[test]
fn the_middle_and_the_ends_of_some_numbers() {
    assert_eq!(median(&vec![]), 0);
    assert_eq!(median(&vec![5, 1, 3]), 3);
    assert_eq!(median(&vec![4, 1, 3, 2]), 3);
    assert_eq!(least(&vec![4, 1, 3]), 1);
    assert_eq!(greatest(&vec![4, 1, 3]), 4);
}

#[test]
fn replicas_are_summed_over_a_dump() {
    let dump = texts(&[
        r#"{"node":"n1","instances":[{"count":2},{"count":3}]}"#,
        "",
        "not json",
        r#"{"node":"n2"}"#,
        r#"{"node":"n3","instances":[{"count":1},{}]}"#,
    ]);
    assert_eq!(replicas(&dump), Some(6));
}

#[test]
fn a_rate_is_an_arrival_rate() {
    assert_eq!(pause(10, 100), 100_000_000);
    assert_eq!(pause(1, 0), 1_000_000_000);
    assert_eq!(pause(u64::MAX, 1), u64::MAX);
    assert_eq!(bucket(3, 10), 3);
    assert_eq!(bucket(30, 10), 10);
}

#[test]
fn events_are_sorted_and_put_on_the_runs_clock() {
    assert_eq!(event_line("12.5 kill n1\n"), Some(("12.5".to_string(), "kill n1".to_string())));
    assert_eq!(event_line("lonely"), None);
    let sorted = sort_events(&vec![mark(20, "b"), mark(10, "z"), mark(20, "a")]);
    assert_eq!(sorted, vec![mark(10, "z"), mark(20, "a"), mark(20, "b")]);
    assert_eq!(marks(&sorted, 15), vec![mark(0, "z"), mark(5, "b")]);
}

#[test]
fn a_load_is_told_second_by_second() {
    let buckets = vec![(10, 0), (11, 0), (12, 0), (9, 3), (10, 0), (10, 0)];
    let lines = load_lines(&buckets, &vec![mark(4, "kill n1")], 5);
    assert_eq!(
        lines,
        [
            "       0    10      0",
            "       1    11      0",
            "       3     9      3",
            "       4    10      0   <- kill n1",
            "       5    10      0",
        ]
    );
}

#[test]
fn errors_are_blamed_on_the_event_before_them() {
    let buckets = vec![(9, 0), (9, 0), (9, 2), (9, 0), (9, 1), (9, 0)];
    assert_eq!(
        window(&buckets, 1, "kill", 6),
        "    after \"kill\": errors in seconds 2..4 (4s from the event to the last error)"
    );
    assert_eq!(window(&buckets, 5, "kill", 6), "    after \"kill\": no failed request at all");
    assert_eq!(window(&buckets, 6, "kill", 6), "    after \"kill\": no failed request at all");
    assert_eq!(
        windows(&buckets, &vec![mark(1, "a"), mark(3, "b")], 5),
        [
            "    after \"a\": errors in seconds 2..2 (2s from the event to the last error)",
            "    after \"b\": errors in seconds 4..4 (2s from the event to the last error)",
        ]
    );
    assert_eq!(answers(&buckets), Some((54, 3)));
    assert_eq!(answers(&vec![(u64::MAX, 0), (1, 0)]), None);
}

#[test]
fn a_recovery_is_measured_from_the_dip() {
    let rows = samples("10 6\n12 6\nnoise\n14 4\n16 5\n20 6\n");
    assert_eq!(rows, vec![(10, 6), (12, 6), (14, 4), (16, 5), (20, 6)]);
    assert_eq!(
        converge(&rows, 11, "kill n1", 30, 6),
        "    kill n1: noticed 3s after, low water 4/6, back to 6 9s after (6s to re-place)"
    );
    assert_eq!(
        converge(&rows, 11, "kill n1", 18, 6),
        "    kill n1: noticed 3s after, low water 4/6, NOT restored before the run ended"
    );
    assert_eq!(converge(&rows, 11, "kill n1", 13, 6), "    kill n1: never observed below 6");
    assert_eq!(
        converge_all(&rows, &vec![mark(9, "a"), mark(13, "b")], 6),
        [
            "    a: never observed below 6",
            "    b: noticed 1s after, low water 4/6, back to 6 7s after (6s to re-place)",
        ]
    );
    assert_eq!(converge_all(&vec![], &vec![mark(9, "a")], 6), ["    no samples"]);
}

#[test]
fn a_node_that_holds_two_organisations_is_marked() {
    let v = document(r#"{"node":"n1","instances":[{"tenant":"b"},{"tenant":"a"},{"tenant":"b"},{}]}"#);
    let (node, orgs) = tenants_of(&v);
    assert_eq!(node, "n1");
    assert_eq!(orgs, ["a", "b"]);
    let mut by: TextMap<Vec<String>> = TextMap::new();
    by.insert("n2".to_string(), vec![]);
    by.insert(node, orgs);
    assert_eq!(
        tenants(&by),
        [
            "    n1         a + b  <- both orgs",
            "    n2         -",
            "\n  1/1 node(s) holding work hold MORE THAN ONE organisation — tenants are not mapped to machines",
        ]
    );
}

#[test]
fn an_inventory_line_names_what_a_node_holds() {
    let v = document(
        r#"{"node":"n1","capacity":{"cpus":8},"instances":[{"tenant":"a","app":"x","count":2},{}]}"#,
    );
    assert_eq!(inventory(&v), "    n1         ( 8 cpu) a/x x2, ?/? x0");
    assert_eq!(inventory(&document("{}")), "    ?          ( 0 cpu) -");
    assert_eq!(
        fleet(&vec![v, document("{}")]),
        Some(texts(&["    ?          ( 0 cpu) -", "    n1         ( 8 cpu) a/x x2, ?/? x0", "    total 2 replica(s)"]))
    );
}

#[test]
fn a_node_that_reports_twice_is_gathered_once() {
    let m = by_node(&vec![
        document(r#"{"node":"n1","instances":[{"tenant":"b"},{"tenant":"a"}]}"#),
        document(r#"{"node":"n2"}"#),
        document(r#"{"node":"n1","instances":[{"tenant":"b"},{"tenant":"c"}]}"#),
    ]);
    assert_eq!(m.len(), 2);
    assert_eq!(m.get("n1"), Some(&texts(&["a", "b", "c"])));
    assert_eq!(m.get("n2"), Some(&texts(&[])));
    assert_eq!(tenants(&m)[0], "    n1         a + b + c  <- both orgs");
}

#[test]
fn a_result_is_read_into_its_distributions() {
    let text = r#"{"statusCodeDistribution":{"200":3,"503":1},"errorDistribution":{"deadline":2}}"#;
    let (codes, errs) = distributions(text).unwrap();
    assert_eq!(codes, vec![("200".to_string(), 3), ("503".to_string(), 1)]);
    assert_eq!(errs, vec![("deadline".to_string(), 2)]);
    assert_eq!(distributions("{}"), Some((vec![], vec![])));
    assert_eq!(distributions("nope"), None);
}

#[test]
fn an_entry_that_does_not_read_is_passed_over() {
    let entries = vec![b"1".to_vec(), b"nope".to_vec(), b"[2]".to_vec()];
    assert_eq!(snapshots(&entries), vec![Json::Unsigned(1), document("[2]")]);
    assert!(snapshots(&vec![]).is_empty());
}

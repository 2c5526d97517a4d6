use comp_tools::capgraph::report::{
    by_interface, find, hit, json, twin, twins, used_by, Edge, Hit, Twin,
};
use comp_tools::capgraph::{surql, App, Catalog, Component, Surface};
use comp_tools::json::parse;
use comp_tools::text_map::TextMap;
use std::collections::BTreeSet;

fn texts(v: &[&str]) -> Vec<String> {
    v.iter().map(|s| s.to_string()).collect()
}

/// Sixty components, each importing the interface of the one before it and of a memory
/// component.
fn catalog() -> Catalog {
    let mut components = Vec::new();
    let mut exporters = TextMap::new();
    let mut consumers = TextMap::new();
    for i in 0..60 {
        let own = format!("c{i}:api/api@0.1.0");
        let imports = if i == 0 {
            vec![]
        } else {
            vec![format!("c{}:api/api@0.1.0", i - 1), "knowledge:memory/store".to_string()]
        };
        exporters.insert(own.clone(), format!("c{i}"));
        consumers.insert(own.clone(), 1);
        components.push(Component {
            name: format!("c{i}"),
            surface: Some(Surface { imports, exports: vec![own] }),
            digest: format!("sha256:{i}"),
        });
    }
    components.push(Component {
        name: "knowledge-memory".to_string(),
        surface: None,
        digest: String::new(),
    });
    Catalog { components, exporters, consumers }
}

fn apps() -> Vec<App> {
    vec![
        App {
            name: "shop".into(),
            root: "c3".into(),
            artifact: "shop.wasm".into(),
            parts: texts(&["c2", "c1"]),
        },
        App {
            name: "vet".into(),
            root: "c1".into(),
            artifact: "vet.wasm".into(),
            parts: texts(&["c1"]),
        },
    ]
}

#[test]
fn the_projection_never_writes_or_deletes_an_accumulated_table() {
    let out = surql(&catalog(), &apps(), 42, 7, "abc");
    let derived = ["interface", "artifact", "app", "imports", "exports", "carries", "about"];
    let append_only = ["generation"];

    let mut mutations = 0usize;
    for statement in out.lines().filter(|l| !l.trim_start().starts_with("--")) {
        let mut words = statement.split_whitespace();
        let Some(verb) = words.next() else { continue };
        if !["UPSERT", "CREATE", "UPDATE", "DELETE", "REMOVE", "RELATE"].contains(&verb) {
            continue;
        }
        let Some(rest) = words.next() else { continue };
        let target =
            if verb == "RELATE" { rest.split("->").nth(1).unwrap_or_default() } else { rest };
        let table = target.split([':', '⟨']).next().unwrap_or_default().trim_start_matches('$');
        mutations += 1;
        if append_only.contains(&table) {
            assert!(verb != "DELETE" && verb != "REMOVE", "a {verb} targets {table:?}: {statement}");
            continue;
        }
        assert!(derived.contains(&table), "a {verb} targets {table:?}: {statement}");
    }
    assert!(mutations > 100, "only {mutations} mutating statements — the parser is wrong");

    for line in out.lines() {
        let t = line.trim();
        if t.starts_with("--") {
            continue;
        }
        let mut outside = String::new();
        let mut depth = 0usize;
        let mut quoted = false;
        for c in t.chars() {
            match c {
                '"' => quoted = !quoted,
                _ if quoted => {}
                '⟨' => depth += 1,
                '⟩' => depth = depth.saturating_sub(1),
                _ if depth == 0 => outside.push(c),
                _ => {}
            }
        }
        if !outside.contains("memory") {
            continue;
        }
        let permitted = outside.starts_with("DEFINE TABLE IF NOT EXISTS memory")
            || (outside.starts_with("LET") && outside.contains("FROM memory"));
        assert!(permitted, "this statement names the `memory` TABLE: {t}");
    }
}

#[test]
fn edge_ids_are_generation_scoped_and_nodes_are_not() {
    let one = surql(&catalog(), &apps(), 1, 7, "abc");
    let two = surql(&catalog(), &apps(), 2, 7, "abc");

    let edge_ids = |s: &str| {
        s.lines()
            .filter(|l| l.starts_with("RELATE"))
            .map(|l| l.split("->").nth(1).unwrap_or_default().to_string())
            .collect::<BTreeSet<_>>()
    };
    assert!(!edge_ids(&one).is_empty(), "no edges at all");
    assert!(
        edge_ids(&one).is_disjoint(&edge_ids(&two)),
        "two generations share an edge id — the second RELATE will be refused"
    );

    let node_ids = |s: &str| {
        s.lines()
            .filter(|l| l.starts_with("UPSERT") && !l.starts_with("UPSERT generation"))
            .map(|l| l.split_whitespace().nth(1).unwrap_or_default().to_string())
            .collect::<BTreeSet<_>>()
    };
    assert_eq!(
        node_ids(&one),
        node_ids(&two),
        "node ids moved between generations — anything pointing at one would dangle"
    );

    let gen_ids = |s: &str| {
        s.lines()
            .filter(|l| l.starts_with("UPSERT generation"))
            .map(|l| l.split_whitespace().nth(1).unwrap_or_default().to_string())
            .collect::<BTreeSet<_>>()
    };
    assert_eq!(gen_ids(&one).len(), 1, "a build must write exactly one generation row");
    assert!(
        gen_ids(&one).is_disjoint(&gen_ids(&two)),
        "two builds share a generation id — the second would overwrite the first"
    );
}

#[test]
fn two_builds_share_rows_and_no_edge_whatever_the_names() {
    for odd in ["a->b", "a\nUPSERT generation", "a|b", "a⟩b"] {
        let cat = Catalog {
            components: vec![Component {
                name: odd.to_string(),
                surface: Some(Surface { imports: texts(&["i"]), exports: vec![] }),
                digest: String::new(),
            }],
            exporters: TextMap::new(),
            consumers: TextMap::new(),
        };
        let clean = odd.replace('⟩', "");
        for (gen, other) in [(1, 11), (11, 1)] {
            let text = surql(&cat, &vec![], gen, 7, "abc");
            assert!(text.contains(&format!("UPSERT artifact:⟨{clean}⟩ SET ")), "{odd}");
            assert!(text.contains(&format!("->imports:⟨{gen}|{clean}|i⟩->")), "{odd}");
            assert!(!text.contains(&format!("->imports:⟨{other}|")), "{odd}");
            assert_eq!(text.matches(&format!("UPSERT generation:⟨{gen}⟩ SET ")).count(), 1, "{odd}");
        }
    }
}

#[test]
fn a_projection_is_its_rows_then_the_ageing() {
    let mut exporters = TextMap::new();
    exporters.insert("i".to_string(), "c".to_string());
    let cat = Catalog {
        components: vec![Component {
            name: "c".into(),
            surface: Some(Surface { imports: texts(&["j"]), exports: texts(&["i"]) }),
            digest: "d".into(),
        }],
        exporters,
        consumers: TextMap::new(),
    };
    let apps = vec![App {
        name: "a".into(),
        root: "c".into(),
        artifact: "a.wasm".into(),
        parts: vec![],
    }];
    let out = surql(&cat, &apps, 5, 9, "ab\"c");
    let lines: Vec<&str> = out.lines().filter(|l| !l.starts_with("--") && !l.is_empty()).collect();
    assert_eq!(
        lines[0],
        "UPSERT interface:⟨i⟩ SET name = \"i\", exporter = \"c\", consumers = 0, gen = 5;"
    );
    assert_eq!(
        lines[1],
        "UPSERT interface:⟨j⟩ SET name = \"j\", exporter = \"\", consumers = 0, gen = 5;"
    );
    assert_eq!(lines[2], "UPSERT artifact:⟨c⟩ SET name = \"c\", digest = \"d\", gen = 5;");
    assert_eq!(
        lines[3],
        "UPSERT app:⟨a⟩ SET name = \"a\", root = \"c\", artifact = \"a.wasm\", gen = 5;"
    );
    assert_eq!(
        lines[4],
        "RELATE artifact:⟨c⟩->imports:⟨5|c|j⟩->interface:⟨j⟩ SET gen = 5;"
    );
    assert_eq!(
        lines[5],
        "RELATE artifact:⟨c⟩->exports:⟨5|c|i⟩->interface:⟨i⟩ SET gen = 5;"
    );
    assert_eq!(lines[6], "RELATE app:⟨a⟩->carries:⟨5|a|c⟩->artifact:⟨c⟩ SET gen = 5;");
    assert!(out.contains(
        "UPSERT generation:⟨5⟩ SET gen = 5, at = 9, commit = \"ab\\\"c\", interfaces = 2, artifacts = 1, apps = 1, imports = 1, exports = 1, carries = 1;"
    ));
    assert!(out.ends_with("DELETE about WHERE gen < 5;\n"));
}

#[test]
fn the_graph_as_data_counts_its_edges() {
    let e = |c: &str, i: &str, p: &str| Edge {
        consumer: c.into(),
        interface: i.into(),
        provider: p.into(),
    };
    let uses = by_interface(&vec![e("x", "b", "p"), e("y", "a", "q"), e("z", "b", "late")]);
    assert_eq!(uses.get("b").unwrap().provider, "p");
    assert_eq!(uses.get("b").unwrap().consumers, texts(&["x", "z"]));
    let carried = used_by(&apps());
    assert_eq!(carried.get("c1").unwrap(), &texts(&["shop", "vet"]));
    let out = json(3, &uses, &vec![("o".to_string(), "i".to_string())], &apps());
    let j = parse(&out).unwrap();
    let stats = j.field("stats").unwrap();
    assert_eq!(stats.field("total_import_edges").unwrap().number(), Some(3));
    assert_eq!(stats.field("total_interfaces").unwrap().number(), Some(2));
    let ranked = j.field("component_in_apps").unwrap().list().unwrap();
    assert_eq!(ranked[0].text_field("component").unwrap(), "c1");
    assert_eq!(ranked[0].field("app_count").unwrap().number(), Some(2));
    assert_eq!(ranked[1].text_field("component").unwrap(), "c2");
    let first = &j.field("interfaces").unwrap().list().unwrap()[0];
    assert_eq!(first.text_field("interface").unwrap(), "a");
}

#[test]
fn a_standard_entry_point_is_no_duplicate() {
    let t = Twin {
        interface: "wasi:http/handler".into(),
        components: texts(&["a", "b"]),
        overlap: "50".into(),
        shared: texts(&["x"]),
    };
    assert_eq!(
        twin(&t),
        format!("  {:<34} 2 components export it — a standard entry point, not a duplicate", "wasi:http/handler")
    );
    let t = Twin { interface: "csv:codec".into(), ..t };
    assert_eq!(
        twin(&t),
        format!("  {:<34} a, b\n      overlap 50%  shared: (only this one)", "csv:codec")
    );
}

#[test]
fn a_wish_is_answered_with_at_most_eight_hits() {
    let h = |n: &str| Hit {
        name: n.into(),
        apps: 3,
        because: texts(&["csv"]),
        description: String::new(),
        exports: texts(&["csv:codec/codec@0.1.0"]),
    };
    assert_eq!(
        hit(&h("csv-codec")),
        format!(
            "  {:<20} {:>2} app(s)  matched on csv\n      (no `//!` description on the component)\n      exports csv:codec/codec",
            "csv-codec", 3
        )
    );
    let many: Vec<Hit> = (0..9).map(|_| h("x")).collect();
    let out = find("csv", &many, 50);
    assert_eq!(out.len(), 9);
    assert_eq!(out[0], "9 of 50 capabilities match \"csv\":\n");
    assert_eq!(
        find("csv", &vec![], 50),
        vec!["nothing in the catalogue matches \"csv\".\n\nThat is an answer: build it, and if it generalises, promote it (ADR-0089).".to_string()]
    );
}

#[test]
fn nothing_built_twice_is_a_finding() {
    let none = twins(&vec![], 9);
    assert_eq!(none.len(), 1);
    assert!(none[0].ends_with("a blank: 9 components, and nothing was built twice."));
    let t = |i: &str| Twin {
        interface: i.to_string(),
        components: vec!["a".to_string(), "b".to_string()],
        overlap: "50".to_string(),
        shared: vec![i.to_string()],
    };
    let lines = twins(&vec![t("x:y/z"), t("wasi:http/handler")], 9);
    assert_eq!(lines.len(), 4);
    assert!(lines[0].starts_with("2 interface(s) exported by more than one component"));
    assert_eq!(lines[1], twin(&t("x:y/z")));
    assert!(lines[3].ends_with("silently gets."));
}

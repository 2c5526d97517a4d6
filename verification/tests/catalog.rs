use comp_tools::catalog::{add_called, add_documented, component_wit_dir, dep_badge, descriptions, first_doc_line, first_groups, is_app, page, role, row, rows, scan, slugify, ConfigKey, Entry, Role};

fn texts(v: &[&str]) -> Vec<String> {
    v.iter().map(|s| s.to_string()).collect()
}

const WIT: &str = "package acme:cache@0.1.0;\n\nworld cache {\n  import wasi:config/store@0.2.0;\n  import wasi:clocks/monotonic-clock@0.2.0;\n  import wasi:keyvalue/store@0.2.0;\n  import wasi:keyvalue/store@0.2.1;\n  export acme:cache/api@0.1.0;\n}\n";

const LIB: &str = "// a licence\n//!\n//! Keeps things near.\n//!\n//! Config keys:\n//!   ttl-secs    how long a thing stays\n//!   max-items   how many there are\n\nfn f() { let _ = get(\"ttl-secs\"); let _ = cfg_or(\"shard\", 1); }\n";

fn entry(name: &str) -> Entry {
    scan(name, WIT, LIB, &texts(&[LIB]))
}

#[test]
fn a_component_is_read_out_of_its_sources() {
    let e = entry("cache");
    assert_eq!(e.name, "cache");
    assert_eq!(e.package, "acme:cache@0.1.0");
    assert_eq!(e.description, "Keeps things near");
    assert_eq!(e.exports, ["acme:cache/api@0.1.0"]);
    assert_eq!(e.capability_deps, ["wasi:config/store", "wasi:keyvalue/store"]);
    assert_eq!(
        e.config_keys,
        vec![
            ConfigKey { name: "ttl-secs".to_string(), description: "how long a thing stays".to_string() },
            ConfigKey { name: "max-items".to_string(), description: "how many there are".to_string() },
            ConfigKey { name: "shard".to_string(), description: String::new() },
        ]
    );
    assert!(e.reusable_as_is);
    assert!(!e.unimplemented);
}

#[test]
fn a_component_that_reads_no_knobs_lists_none() {
    let e = scan("cache", "package a:b;\nworld w {\n  import wasi:io/streams;\n}\n", LIB, &texts(&[LIB]));
    assert!(e.capability_deps.is_empty());
    assert!(e.config_keys.is_empty());
}

#[test]
fn a_manifest_may_point_its_world_elsewhere() {
    let m = "[package]\nname = \"x\"\n[package.metadata.component]\n[package.metadata.component.target]\nworld = \"w\"\npath = \"../../wit\"\n";
    assert_eq!(component_wit_dir(m), Some("../../wit".to_string()));
    assert_eq!(component_wit_dir("[package.metadata.component]\n"), None);
    assert_eq!(component_wit_dir("[package.metadata.component.target]\npath = \"wit\"\n"), None);
}

#[test]
fn the_doc_line_is_the_first_that_says_something() {
    assert_eq!(first_doc_line("//!\n//! Reads mail...\n"), "Reads mail");
    assert_eq!(first_doc_line("use x;\n//! late\n"), "");
    assert_eq!(first_doc_line(""), "");
}

#[test]
fn matches_are_put_to_use_as_they_come() {
    let ms = vec![texts(&["export a;", " a "]), texts(&["export b;", "b"]), texts(&["alone"])];
    assert_eq!(first_groups(&ms), ["a", "b", ""]);
    let mut ks: Vec<ConfigKey> = vec![];
    add_documented(&mut ks, &vec![texts(&["", "x", " why "]), texts(&["", "x", "again"])]);
    add_called(&mut ks, &vec![texts(&["", "x"]), texts(&["", "y"])]);
    assert_eq!(
        ks,
        vec![
            ConfigKey { name: "x".to_string(), description: "why".to_string() },
            ConfigKey { name: "y".to_string(), description: String::new() },
        ]
    );
}

#[test]
fn a_role_is_read_off_the_entry() {
    assert!(is_app("vet-domain"));
    assert!(is_app("login-app"));
    assert!(!is_app("cache"));
    assert_eq!(role(&entry("cache")), Role::Capability);
    assert_eq!(role(&entry("shop-domain")), Role::App);
    assert_eq!(role(&entry("kv-probe")), Role::Probe);
    assert_eq!(role(&entry("bigadd")), Role::Probe);
    let stub = scan("shop-domain", WIT, "//! x\n// UNIMPLEMENTED: all\n", &texts(&[]));
    assert_eq!(role(&stub), Role::Contract);
}

#[test]
fn anchors_and_badges_are_short() {
    assert_eq!(slugify("Capabilities — reusable as-is"), "capabilities--reusable-as-is");
    assert_eq!(dep_badge(&texts(&[])), "pure compute");
    assert_eq!(dep_badge(&texts(&["wasi:keyvalue/store", "wasi:config/store"])), "kv:store, config/store");
    assert_eq!(
        row(&entry("cache")),
        "| **cache** | `acme:cache@0.1.0` | config/store, kv:store | `ttl-secs`, `max-items`, `shard` |"
    );
}

#[test]
fn every_component_stands_on_the_page_once() {
    let es = vec![entry("cache"), entry("shop-domain"), entry("kv-probe")];
    assert_eq!(rows(&es, Role::Capability).len(), 1);
    assert_eq!(rows(&es, Role::Contract).len(), 0);
    assert_eq!(descriptions(&es)[0], "- **cache** — Keeps things near");
    let p = page(&es);
    assert!(p.starts_with("# Component catalog\n\n"));
    assert!(p.contains(" 3 components.\n"));
    assert!(p.contains("- [Probes — test harnesses](#probes--test-harnesses) — 1\n"));
    assert_eq!(p.matches("| **cache** |").count(), 1);
    assert!(p.ends_with("- **kv-probe** — Keeps things near\n"));
}

use comp_tools::capgraph::{lit, rid};
use comp_tools::json::{parse, Json};
use comp_tools::reuse::{
    first_array, imports_query, is_stub, read_goal, report, rows, rows_in, skipped, wired_peers,
    wired_query,
};

#[test]
fn lit_escapes_a_quote_so_a_crate_name_cannot_carry_surql_syntax() {
    assert_eq!(lit(r#"a"; DROP TABLE app; --"#), r#""a\"; DROP TABLE app; --""#);
}

#[test]
fn rid_strips_a_stray_closing_angle_bracket_rather_than_letting_it_close_early() {
    assert_eq!(rid("artifact", "weird⟩name"), "artifact:⟨weirdname⟩");
}

#[test]
fn rid_is_stable_for_an_ordinary_name() {
    assert_eq!(rid("app", "flags"), "app:⟨flags⟩");
}

fn list(text: &str) -> Vec<Json> {
    match parse(text) {
        Some(Json::List(v)) => v,
        _ => panic!("not a list"),
    }
}

#[test]
fn first_array_reads_the_named_field_of_the_first_row() {
    assert_eq!(first_array(&list(r#"[{"parts": ["a", "b"]}]"#), "parts"), vec!["a", "b"]);
}

#[test]
fn first_array_is_empty_for_no_rows() {
    assert!(first_array(&vec![], "parts").is_empty());
}

#[test]
fn first_array_is_empty_when_the_field_is_missing() {
    assert!(first_array(&list("[{}]"), "parts").is_empty());
}

#[test]
fn an_apps_own_component_is_not_reuse() {
    let reply = parse(r#"[{"result":null},{"result":[{"parts":["own","a",3,"b"]}]}]"#).unwrap();
    assert_eq!(wired_peers(&rows(reply), "own"), vec!["a", "b"]);
    for none in ["[]", "{}", "null", r#"[{"result":[1]},{"result":{}}]"#, r#"[{"result":[1]},{}]"#] {
        assert!(rows(parse(none).unwrap()).is_empty());
    }
    assert_eq!(
        wired_query("a\"b"),
        "SELECT ->carries->artifact.name AS parts FROM app WHERE root = \"a\\\"b\";"
    );
    assert_eq!(
        imports_query("x"),
        "SELECT ->imports->interface.name AS imported FROM artifact:⟨x⟩;"
    );
}

#[test]
fn a_goal_is_measured_by_the_crate_that_it_writes() {
    let goal = r#"
title = "triage"
[[part]]
writable = ["README.md", "docs/x.rs", "components/triage/src/lib.rs"]
[[part]]
writable = ["components/other/src/lib.rs"]
"#;
    let m = read_goal(goal, "g.toml").unwrap();
    assert_eq!(m.title, "triage");
    assert_eq!(m.crate_name, "triage");
    assert_eq!(
        m.written,
        vec!["docs/x.rs", "components/triage/src/lib.rs", "components/other/src/lib.rs"]
    );
    assert_eq!(read_goal("not = [toml", "g"), None);
    assert_eq!(read_goal("title = \"x\"", "g"), None);
    let m = read_goal("[[part]]\nwritable = [\"components/a/b.rs\"]", "g.toml").unwrap();
    assert_eq!(m.title, "g.toml");
    assert!(is_stub("x 501, \"not_implemented\" y"));
    assert!(!is_stub("fn main() {}"));
    assert_eq!(skipped(&m, 1, "g.toml")[0], "\n=== g.toml");
    let lines = report(&m, &vec!["x".to_string(), "y".to_string()], &vec![], "66.7");
    assert_eq!(lines[2], "  COMPOSITION  2 component(s) wired in: x, y");
    assert_eq!(
        lines[4],
        "               reuse ratio 66.7%  — 2x more existing components than authored"
    );
    assert_eq!(lines[5], "  CAPABILITIES artifact imports 0 interface(s): ");
}

#[test]
fn rows_come_out_of_a_reply_as_it_came() {
    assert_eq!(rows_in(r#"[{"result":null},{"result":[7,"x"]}]"#), vec![Json::Unsigned(7), Json::Text("x".into())]);
    assert!(rows_in("no json").is_empty());
    assert!(rows_in("").is_empty());
}

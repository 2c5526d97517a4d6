use comp_tools::oci::{base_url, component_name, lock_text, pulled, pushed, repo_for, split_reference, split_registry, wasm_files, Named};
use comp_tools::relay::{acts, check_targets, holder, lease_scope, refuse_settings, refuse_target, remark, started, takes_lease, Poked, Refused};
use comp_tools::url::Url;

fn texts(v: &[&str]) -> Vec<String> {
    v.iter().map(|s| s.to_string()).collect()
}

#[test]
fn a_target_that_is_not_a_url_is_refused_at_startup() {
    assert!(check_targets(&vec!["not a url".into()]).is_err());
    assert!(check_targets(&vec!["ftp://box/pump".into()]).is_err());
    assert!(check_targets(&vec!["http://127.0.0.1:3012/internal/pump".into()]).is_ok());
}

#[test]
fn a_relative_path_is_refused_rather_than_resolved() {
    assert!(check_targets(&vec!["/internal/pump".into()]).is_err());
}

fn refused(message: &str, cause: Option<&str>) -> Refused {
    Refused { message: message.to_string(), cause: cause.map(|c| c.to_string()) }
}

#[test]
fn a_refused_target_is_told_why() {
    assert_eq!(
        check_targets(&texts(&["http://a/", "/p"])),
        Err(refused("target \"/p\" is a path, not a URL — name the app too, e.g. http://127.0.0.1:3012/p", None))
    );
    assert_eq!(
        check_targets(&texts(&["ftp://box/pump"])),
        Err(refused("target \"ftp://box/pump\" must be http or https, not \"ftp\"", None))
    );
    assert_eq!(
        check_targets(&texts(&["x y"])),
        Err(refused("target \"x y\" is not a URL", Some("relative URL without a base")))
    );
    assert_eq!(
        check_targets(&texts(&["http://a:99999/"])),
        Err(refused("target \"http://a:99999/\" is not a URL", Some("invalid port number")))
    );
    let hostless = Ok(Url { scheme: "http".to_string(), host: None, port: None });
    assert_eq!(refuse_target("t", &hostless), Some(refused("target \"t\" names no host", None)));
    assert_eq!(check_targets(&vec![]), Ok(()));
}

#[test]
fn a_lease_must_outlive_its_renewal() {
    assert!(refuse_settings(10, 10, false, true, false).expect("refused").starts_with("lease-ttl 10 is not longer than interval 10 — "));
    assert_eq!(refuse_settings(10, 10, true, true, false), None);
    assert_eq!(refuse_settings(10, 10, false, false, false), None);
    assert_eq!(refuse_settings(11, 10, false, true, true), None);
    assert!(refuse_settings(11, 10, false, false, true).expect("refused").starts_with("--watch-bus needs --nats-url"));
    assert!(takes_lease(true, false));
    assert!(!takes_lease(true, true));
    assert!(!takes_lease(false, false));
    assert!(acts(None));
    assert!(acts(Some(true)));
    assert!(!acts(Some(false)));
}

#[test]
fn a_relay_says_who_it_is_and_what_it_met() {
    assert_eq!(lease_scope("prod"), "prod-relay");
    assert_eq!(holder(Some(&"box".to_string()), 7), "box:7");
    assert_eq!(holder(None, 7), "unknown:7");
    assert_eq!(remark("t", Poked::Done, "sweep"), None);
    assert_eq!(remark("t", Poked::Answered("503"), "sweep"), Some("comp-relay: t answered 503 [sweep]".to_string()));
    assert_eq!(remark("t", Poked::Unreachable("refused"), "once"), Some("comp-relay: t unreachable: refused [once]".to_string()));
    assert_eq!(started(2, 10, true), "comp-relay: 2 target(s), sweeping every 10s, and early on any bus publish");
    assert_eq!(started(1, 5, false), "comp-relay: 1 target(s), sweeping every 5s");
}

#[test]
fn a_registry_is_a_host_and_a_prefix() {
    assert_eq!(split_registry("ghcr.io/owner/repo"), ("ghcr.io".to_string(), "owner/repo".to_string()));
    assert_eq!(split_registry("localhost:5000"), ("localhost:5000".to_string(), String::new()));
    assert_eq!(repo_for("owner/repo", "x"), "owner/repo/x");
    assert_eq!(repo_for("", "x"), "x");
    assert_eq!(base_url("https", "ghcr.io"), "https://ghcr.io");
}

#[test]
fn a_digest_wins_over_a_tag() {
    assert_eq!(split_reference("pv@sha256:ab"), ("pv".to_string(), "sha256:ab".to_string()));
    assert_eq!(split_reference("pv:v1"), ("pv".to_string(), "v1".to_string()));
    assert_eq!(split_reference("pv"), ("pv".to_string(), "latest".to_string()));
}

#[test]
fn only_components_of_a_directory_are_pushed() {
    let named = vec![
        Named::Directory(texts(&["d/b.wasm", "d/a.wasm", "d/a.d", "d/.wasm"])),
        Named::File("x.bin".to_string()),
    ];
    assert_eq!(wasm_files(&named), Ok(texts(&["d/a.wasm", "d/b.wasm", "x.bin"])));
    assert_eq!(
        wasm_files(&vec![Named::File("x".to_string()), Named::Missing("y".to_string()), Named::Missing("z".to_string())]),
        Err("no such path: y".to_string())
    );
    assert_eq!(wasm_files(&vec![Named::Directory(vec![])]), Err("nothing to push".to_string()));
    assert_eq!(wasm_files(&vec![]), Err("nothing to push".to_string()));
}

#[test]
fn a_push_is_named_and_pinned() {
    assert_eq!(component_name("target/portfolio_value.wasm"), Some("portfolio-value".to_string()));
    assert_eq!(component_name(".."), None);
    assert_eq!(pushed("pv", "sha256:ab", 4095), "pv sha256:ab (3 KB)");
    assert_eq!(
        lock_text(&vec![("a".to_string(), "d1".to_string()), ("b".to_string(), "d2".to_string())]),
        "a d1\nb d2\n"
    );
    assert_eq!(pulled("o.wasm", "r/pv", "latest", 2048, "sha256:ab"), "o.wasm <- r/pv:latest (2 KB, sha256:ab)");
}

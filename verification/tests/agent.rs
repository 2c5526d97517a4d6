use comp_tools::agent::{app_dir, fetch, is_component, parse_lock, read_args, sweep, update, updated, which_oci, Request};

fn texts(v: &[&str]) -> Vec<String> {
    v.iter().map(|s| s.to_string()).collect()
}

#[test]
fn a_lock_is_a_registry_and_digests() {
    let d = parse_lock(
        "# Generated, do not edit\n\
         # built-from abc123\n\
         registry ghcr.io/owner/holon-apps\n\
         events sha256:aaa\n\
         poll   sha256:bbb\n",
    );
    assert_eq!(d.registry, "ghcr.io/owner/holon-apps");
    assert_eq!(d.digests.get("events").map(String::as_str), Some("sha256:aaa"));
    assert_eq!(d.digests.len(), 2);
    assert_eq!(d.scheme, "https", "https unless the lock says otherwise");

    let plain = parse_lock("registry 10.0.0.1:5055/apps\nscheme http\nevents sha256:c\n");
    assert_eq!(plain.scheme, "http");
    assert_eq!(plain.digests.len(), 1, "`scheme` is not an app");
}

#[test]
fn an_empty_lock_asks_for_nothing() {
    assert!(parse_lock("# nothing here\n").digests.is_empty());
    assert!(parse_lock("").digests.is_empty());
}

#[test]
fn the_later_line_of_a_lock_wins() {
    let d = parse_lock("registry a\nregistry b\napp one\napp two\nalone\n");
    assert_eq!(d.registry, "b");
    assert_eq!(d.digests.get("app").map(String::as_str), Some("two"));
    assert_eq!(d.digests.len(), 1);
}

#[test]
fn a_fetch_says_its_status_plainly() {
    assert_eq!(fetch(true, "registry r\n\n200", "", "u"), Ok("registry r\n".to_string()));
    assert_eq!(fetch(true, "x\n500", "", "u"), Err("fetching u: HTTP 500".to_string()));
    assert_eq!(fetch(false, "x\n200", " no route \n", "u"), Err("fetching u: no route".to_string()));
    assert!(fetch(true, "\n404", "", "u").unwrap_err().starts_with("no lock at u yet (404)"));
    assert_eq!(fetch(true, "", "", "u"), Err("fetching u: HTTP 000".to_string()));
}

#[test]
fn a_sweep_touches_only_what_the_box_runs_and_is_not_current() {
    let d = parse_lock("registry r\na 1\nb 2\nc 3\n");
    let due = sweep(&d, &vec![true, true, false], &vec![Some("1".into()), None, None]).unwrap();
    assert_eq!(due, vec![1]);
    let none = parse_lock("a 1\n");
    assert_eq!(sweep(&none, &vec![true], &vec![None]), Err("the lock names no registry".to_string()));
    assert_eq!(updated(true, 3, &vec![]), 3);
    assert_eq!(updated(false, 3, &vec![true, false, true]), 2);
}

#[test]
fn an_update_stops_at_the_first_step_that_failed() {
    assert_eq!(update("a", "d", Err(" gone\n".into()), true, true), Err("pulling a@d: gone".into()));
    assert_eq!(update("a", "d", Ok(()), false, true), Err("a@d is not a wasm component".into()));
    assert_eq!(update("a", "d", Ok(()), true, false), Err("comp-a did not restart".into()));
    assert_eq!(update("a", "d", Ok(()), true, true), Ok("d\n".into()));
    assert!(is_component(b"\0asm\x0d\0\x01\0"));
    assert!(!is_component(b"\0asm\x01\0\0\0"));
    assert!(!is_component(b"\0asm"));
}

#[test]
fn paths_and_tools_are_found_in_order() {
    assert_eq!(app_dir("events"), "/srv/comp/events");
    assert_eq!(app_dir("/opt/x"), "/opt/x");
    assert_eq!(which_oci(true, true), Ok("/usr/local/bin/comp-oci".to_string()));
    assert_eq!(which_oci(false, true), Ok("reconciler/target/release/comp-oci".to_string()));
    assert!(which_oci(false, false).is_err());
}

#[test]
fn the_arguments_are_read_left_to_right() {
    match read_args(&texts(&["--lock-url", "u", "--interval", "60", "--once", "--dry-run"])) {
        Request::Run(s) => {
            assert_eq!((s.lock_url.as_str(), s.interval, s.once, s.dry), ("u", 60, true, true));
        }
        other => panic!("{other:?}"),
    }
    match read_args(&texts(&["--interval", "soon", "--lock-url", "u"])) {
        Request::Run(s) => assert_eq!(s.interval, 300),
        other => panic!("{other:?}"),
    }
    assert_eq!(read_args(&texts(&["--lock-url"])), Request::NoLockUrl);
    assert_eq!(read_args(&texts(&["--help", "x"])), Request::Help);
    assert_eq!(read_args(&texts(&["x", "--help"])), Request::Unknown("x".to_string()));
}

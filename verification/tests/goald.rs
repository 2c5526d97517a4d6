use comp_tools::goald::{call_url, dispatch, fail, finished, forge_answer, forge_verdict, free_runs, goals_in, goals_path, login_body, opened, parse_pr_url, platform_url, pr_api, pr_status, read_session, refused_call, renewed, renewed_by, renews, report, sweep_awaiting_human, work, Claims, Pick, PrStatus, Work};
use comp_tools::json::{parse, parse_bytes, read_json, reply_of, Json};

fn texts(v: &[&str]) -> Vec<String> {
    v.iter().map(|s| s.to_string()).collect()
}

fn document(text: &str) -> Json {
    parse(text).expect("a document")
}

#[test]
fn parse_pr_url_reads_owner_repo_and_number() {
    assert_eq!(
        parse_pr_url("https://github.com/acme/widgets/pull/42"),
        Some(("acme".into(), "widgets".into(), "42".into()))
    );
    assert_eq!(
        parse_pr_url("https://github.com/acme/widgets/pull/42/"),
        Some(("acme".into(), "widgets".into(), "42".into()))
    );
}

#[test]
fn parse_pr_url_refuses_anything_that_is_not_a_pull_request_link() {
    for bad in [
        "https://gitlab.com/acme/widgets/pull/42",
        "https://github.com/acme/widgets/issues/42",
        "https://github.com/acme/widgets",
        "not a url at all",
        "",
    ] {
        assert_eq!(parse_pr_url(bad), None, "{bad:?} should not parse");
    }
}

#[test]
fn a_pull_request_is_looked_up_at_the_forge() {
    assert_eq!(
        pr_api("https://github.com/acme/widgets/pull/42"),
        Ok("https://api.github.com/repos/acme/widgets/pulls/42".to_string())
    );
    assert!(pr_api("https://example.com/x").is_err());
}

#[test]
fn a_merged_request_is_told_from_a_closed_one() {
    assert_eq!(pr_status(&document(r#"{"merged":true,"state":"closed"}"#)), PrStatus::Merged);
    assert_eq!(pr_status(&document(r#"{"merged":false,"state":"closed"}"#)), PrStatus::ClosedUnmerged);
    assert_eq!(pr_status(&document(r#"{"merged":false,"state":"open"}"#)), PrStatus::Open);
}

#[test]
fn an_open_request_leaves_its_goal_waiting() {
    assert!(sweep_awaiting_human("g1", "u", PrStatus::Open).is_none());
    let done = sweep_awaiting_human("g1", "u", PrStatus::Merged).expect("closed");
    assert_eq!(done.path, "/api/goals/g1/done");
    assert!(done.body.is_none());
    let failed = sweep_awaiting_human("g1", "u", PrStatus::ClosedUnmerged).expect("closed");
    assert_eq!(failed.path, fail("g1", "").path);
    assert_eq!(failed.body, fail("g1", "pull request closed without merging: u").body);
}

#[test]
fn a_goal_without_a_spec_is_refused_and_one_with_it_runs() {
    let more = texts(&["--model", "m"]);
    match work(&document(r#"{"id":"g"}"#), "/co", "a/b", &more) {
        Work::Refuse(p) => assert_eq!(p.path, fail("g", "").path),
        Work::Run(_) => panic!("nothing to run"),
    }
    match work(&document(r#"{"id":"g","spec":"s.toml","frozen_spec":"f.toml"}"#), "/co", "a/b", &more) {
        Work::Run(args) => assert_eq!(
            args,
            ["--checkout", "/co", "--repo", "a/b", "--goal", "f.toml", "--model", "m"]
        ),
        Work::Refuse(_) => panic!("it has a spec"),
    }
    match work(&document(r#"{"id":"g","spec":"s.toml"}"#), "/co", "a/b", &more) {
        Work::Run(args) => assert_eq!(args[5], "s.toml"),
        Work::Refuse(_) => panic!("it has a spec"),
    }
}

#[test]
fn a_run_reports_its_request_or_its_reason() {
    assert_eq!(opened("  PR opened: https://x/1\n"), Some("https://x/1".to_string()));
    assert_eq!(opened("nothing"), None);
    let good = report("g", true, &Some("https://x/1".to_string()), "");
    assert_eq!(good.path, "/api/goals/g/review");
    assert_eq!(good.body, Some(document(r#"{"pr":"https://x/1"}"#)));
    assert_eq!(report("g", true, &None, "").body, Some(document(r#"{"pr":null}"#)));
    assert_eq!(report("g", false, &None, "why").body, fail("g", "why").body);
}

#[test]
fn calls_are_renewed_and_placed() {
    assert!(renews("401 Unauthorized", true));
    assert!(!renews("401 Unauthorized", false));
    assert!(!renews("500", true));
    assert_eq!(platform_url(Some("http://a".to_string()), &document("{}")), "http://a");
    assert_eq!(platform_url(None, &document(r#"{"url":"http://b"}"#)), "http://b");
    assert_eq!(platform_url(None, &document("{}")), "http://127.0.0.1:8080");
    assert_eq!(call_url("http://a//", "/api"), "http://a/api");
    assert!(renews(&refused_call("401 Unauthorized", "/api", " no \n"), true));
    assert_eq!(refused_call("500 Oops", "/api", " no \n"), "500 Oops from /api: no");
    assert_eq!(login_body("e", "p"), document(r#"{"email":"e","password":"p"}"#));
    assert_eq!(renewed(&document(r#"{"token":"t"}"#)), Ok("t".to_string()));
    assert_eq!(renewed(&document("{}")), Err("the platform returned no token".to_string()));
    assert_eq!(goals_path("p", "running"), "/api/projects/p/goals?state=running");
}

#[test]
fn a_goal_is_taken_once_and_waits_once() {
    let mut c = Claims::new();
    assert_eq!(c.pick("", false), Pick::Skip);
    assert_eq!(c.pick("a", true), Pick::Defer);
    assert_eq!(c.pick("a", true), Pick::Wait);
    assert_eq!(c.pick("a", false), Pick::Resume);
    assert_eq!(c.pick("a", false), Pick::Skip);
    assert_eq!(c.pick("b", false), Pick::Start);
}

#[test]
fn a_pass_starts_the_first_goals_that_can() {
    let mut c = Claims::new();
    let asked = |dear: bool| ["a", "", "a", "b", "c"].map(|i| (i.to_string(), dear)).to_vec();
    assert_eq!(dispatch(&mut c, &asked(false), 2, "m"), (texts(&["a", "b"]), texts(&[])));
    let held = texts(&["[goald] c DEFERRED: m is peak-priced right now, waiting for off-peak"]);
    assert_eq!(dispatch(&mut c, &asked(true), 2, "m"), (texts(&[]), held));
    assert_eq!(c.deferred, ["c"]);
    assert_eq!(dispatch(&mut c, &asked(true), 2, "m"), (texts(&[]), texts(&[])));
    let resumed = texts(&["[goald] c off-peak now, starting"]);
    assert_eq!(dispatch(&mut c, &asked(false), 2, "m"), (texts(&["c"]), resumed));
    assert_eq!(c.deferred, texts(&[]));
    assert_eq!(dispatch(&mut c, &asked(false), 2, "m"), (texts(&[]), texts(&[])));
}

#[test]
fn a_goal_that_waits_takes_no_place() {
    let mut c = Claims::new();
    let asked = [("a", true), ("b", false), ("c", false)].map(|(i, d)| (i.to_string(), d)).to_vec();
    let (started, lines) = dispatch(&mut c, &asked, 1, "?");
    assert_eq!(started, ["b"]);
    assert_eq!(lines, ["[goald] a DEFERRED: ? is peak-priced right now, waiting for off-peak"]);
    assert_eq!(dispatch(&mut c, &asked, 0, "?"), (texts(&[]), texts(&[])));
}

#[test]
fn a_draining_daemon_starts_nothing_and_ends_when_idle() {
    assert_eq!(free_runs(3, 1, false), 2);
    assert_eq!(free_runs(3, 1, true), 0);
    assert_eq!(free_runs(1, 4, false), 0);
    assert!(finished(true, false, 2));
    assert!(finished(false, true, 0));
    assert!(!finished(false, true, 1));
    assert!(!finished(false, false, 0));
}

#[test]
fn a_session_is_read_out_of_a_credentials_file() {
    let raw = br#"{"url":"http://p","token":"t"}"#;
    assert_eq!(read_session(raw, None), Ok(("http://p".into(), "t".into())));
    assert_eq!(read_session(raw, Some("http://q".into())), Ok(("http://q".into(), "t".into())));
    assert_eq!(read_session(b"{}", None), Ok(("http://127.0.0.1:8080".into(), "".into())));
    assert_eq!(read_session(b"nope", None), Err("expected ident at line 1 column 2".to_string()));
    assert_eq!(read_session(b"\xff", None), Err("expected value at line 1 column 1".to_string()));
}

#[test]
fn a_reply_that_is_no_json_says_nothing() {
    assert_eq!(reply_of("[1]"), Json::List(vec![Json::Unsigned(1)]));
    assert_eq!(reply_of("oops"), Json::Null);
    assert_eq!(parse_bytes(b"[1]"), Some(reply_of("[1]")));
    assert_eq!(parse_bytes(b"[1"), None);
}

#[test]
fn the_goals_of_a_reply_are_listed() {
    assert_eq!(goals_in(document(r#"{"x":1,"goals":[1,2]}"#)).len(), 2);
    assert!(goals_in(document(r#"{"goals":{}}"#)).is_empty());
    assert!(goals_in(document("[]")).is_empty());
}

#[test]
fn a_renewed_token_comes_out_of_the_reply() {
    assert_eq!(renewed_by(br#"{"token":"t"}"#), Ok("t".to_string()));
    assert_eq!(renewed_by(b"{}"), Err("the platform returned no token".to_string()));
    assert_eq!(
        renewed_by(b""),
        Err("error decoding response body: EOF while parsing a value at line 1 column 0".to_string())
    );
}

#[test]
fn a_forge_that_refuses_is_quoted() {
    assert_eq!(forge_answer(true, "200 OK", br#"{"merged":true}"#), Ok(PrStatus::Merged));
    assert_eq!(
        forge_answer(false, "404 Not Found", br#"{"message":"gone"}"#),
        Err("404 Not Found from GitHub: gone".to_string())
    );
    assert_eq!(
        forge_answer(true, "200 OK", b"<html>"),
        Err("the GitHub API did not answer with JSON: error decoding response body: expected value at line 1 column 1".to_string())
    );
    assert_eq!(forge_verdict(true, "200 OK", &read_json(b"{}")), Ok(PrStatus::Open));
}

#[test]
fn a_pull_request_reads_back() {
    let url = |host: &str, kind: &str| format!("https://{host}/o-1/r.x/{kind}/7");
    let read = Some(("o-1".to_string(), "r.x".to_string(), "7".to_string()));
    assert_eq!(parse_pr_url(&url("github.com", "pull")), read);
    assert_eq!(parse_pr_url(&(url("github.com", "pull") + "/")), read);
    for (host, kind) in [("github.co", "pull"), ("github.comx", "pull"), ("github.com", "pulls")] {
        assert_eq!(parse_pr_url(&url(host, kind)), None);
    }
    assert_eq!(parse_pr_url("https://github.com/o-1/r.x"), None);
}

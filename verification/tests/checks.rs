use comp_tools::checks::{
    allow_list, answer, apply, bad_path, check_env, chunk_body_complete, content_length, dechunk, ensure_base,
    find_headers_end, is_chunked, killed, need_json, note, permitted, refuse, refused, report_json,
    report_of, respond, run_check, safe_path, uncached, unstarted, Base, Check, Ended, FileChange, Incoming, NeedTree,
    Result1,
};

fn check(id: &str, required: bool, weight: u32) -> Result1 {
    Result1 {
        id: id.into(),
        required,
        weight,
        passed: false,
        took_ms: 0,
        detail: String::new(),
    }
}

#[test]
fn the_gate_is_the_required_checks() {
    let mut a = check("compiles", true, 1);
    let mut b = check("lints", false, 1);
    a.passed = true;
    b.passed = false;
    let r = report_of("x", vec![a, b]);
    assert!(r.accepted, "a failing OPTIONAL check must not close it");

    let mut a = check("compiles", true, 1);
    a.passed = false;
    let r = report_of("x", vec![a]);
    assert!(!r.accepted, "a failing required check must close it");
}

#[test]
fn the_score_gives_a_gradient_the_gate_cannot() {
    let mut some = vec![check("a", true, 1), check("b", true, 1), check("c", true, 1)];
    some[0].passed = true;
    let poor = report_of("x", some);

    let mut more = vec![check("a", true, 1), check("b", true, 1), check("c", true, 1)];
    more[0].passed = true;
    more[1].passed = true;
    let better = report_of("y", more);

    assert!(!poor.accepted && !better.accepted, "neither is acceptable yet");
    assert!(
        better.score > poor.score,
        "2 of 3 must beat 1 of 3 even though neither is accepted: {} vs {}",
        better.score,
        poor.score
    );
}

#[test]
fn weight_moves_the_score_and_never_the_gate() {
    let mut heavy = vec![check("big", false, 9), check("small", false, 1)];
    heavy[0].passed = true;
    let r = report_of("x", heavy);
    assert_eq!(r.score, 900);
    assert!(r.accepted, "no required checks means nothing was demanded");
}

#[test]
fn an_empty_check_list_scores_zero_rather_than_dividing_by_it() {
    let r = report_of("x", vec![]);
    assert_eq!(r.score, 0);
    assert!(r.accepted, "nothing was required, so nothing failed");
}

#[test]
fn only_allowed_commands_may_run() {
    let allow: Vec<Vec<String>> = vec![vec!["cargo".into(), "test".into()], vec!["just".into()]];
    let cmd = |s: &str| -> Vec<String> { s.split(' ').map(str::to_string).collect() };

    assert!(permitted(&allow, &cmd("cargo test")));
    assert!(permitted(&allow, &cmd("cargo test -p thing")), "arguments after are fine");
    assert!(permitted(&allow, &cmd("just build")));

    assert!(!permitted(&allow, &cmd("cargo")), "a prefix of an allowed command is not it");
    assert!(!permitted(&allow, &cmd("cargo publish")), "a sibling subcommand is not allowed");
    assert!(!permitted(&allow, &cmd("rm -rf /")));
    assert!(!permitted(&allow, &cmd("sh -c 'cargo test'")), "no shell to hide behind");
    assert_eq!(
        allow_list(&vec!["cargo  test ".to_string(), "just".to_string()]),
        allow
    );
}

#[test]
fn a_change_cannot_escape_the_tree() {
    for ok in ["src/lib.rs", "a/b/c.txt", ".comp/goals/x.md"] {
        assert!(safe_path(ok), "{ok} is inside");
    }
    for bad in ["", "/etc/passwd", "../out", "a/../b", "a//b", "./a"] {
        assert!(!safe_path(bad), "{bad:?} must be refused");
    }
    assert!(!safe_path("a\0b"));
    assert!(!safe_path("a/"));
    assert_eq!(bad_path("../x").unwrap(), "\"../x\" is not a path inside the tree");
    assert_eq!(bad_path("x"), None);
}

fn asked(command: &[&str], weight: u32) -> Check {
    Check {
        id: "c".into(),
        required: true,
        weight,
        command: command.iter().map(|s| s.to_string()).collect(),
    }
}

#[test]
fn a_check_that_may_not_run_says_why() {
    let allow = vec![vec!["cargo".to_string()]];
    assert_eq!(refused(&asked(&[], 1), &allow).unwrap(), "no command");
    assert_eq!(
        refused(&asked(&["rm", "-rf"], 1), &allow).unwrap(),
        "`rm -rf` is not on this runner's allow-list"
    );
    assert_eq!(refused(&asked(&["cargo"], 1), &allow), None);
    let r = refuse(&asked(&[], 0), killed(5), 7);
    assert_eq!((r.weight, r.passed, r.detail.as_str(), r.took_ms), (1, false, "killed after 5s", 7));
}

#[test]
fn a_check_says_the_end_of_what_it_wrote() {
    let c = asked(&["x"], 2);
    let r = run_check(&c, true, b" out ", b" \n", 3);
    assert_eq!((r.passed, r.detail.as_str(), r.weight), (true, "out", 2));
    let long = "é".repeat(700) + "end";
    let r = run_check(&c, false, b"", long.as_bytes(), 3);
    assert_eq!(r.detail.chars().count(), 600);
    assert!(r.detail.ends_with("end"));
    let r = run_check(&c, false, b"", b"bad \xff byte", 3);
    assert_eq!(r.detail, "bad \u{fffd} byte");
    let env = check_env(None, "/w");
    assert_eq!(env[0], ("PATH".to_string(), "/usr/bin:/bin".to_string()));
    assert_eq!(env[1], ("HOME".to_string(), "/w".to_string()));
}

#[test]
fn passing_more_never_scores_less() {
    let mut a = vec![check("a", true, 3), check("b", false, 5)];
    a[1].passed = true;
    let mut b = vec![check("a", true, 3), check("b", false, 5)];
    b[0].passed = true;
    b[1].passed = true;
    let (x, y) = (report_of("x", a), report_of("y", b));
    assert_eq!((x.score, y.score), (625, 1000));
    assert_eq!(y.passed, 2);
    assert_eq!(note(&x), "comp-checks: x — 1/2 passed, score 625, rejected");
    let j = report_json(&y);
    assert_eq!(j.field("score").unwrap().number(), Some(1000));
    assert_eq!(j.field("results").unwrap().list().unwrap().len(), 2);
}

#[test]
fn a_score_is_a_fraction_whatever_the_weights() {
    let mut one = check("a", false, 5_000_000);
    one.passed = true;
    assert_eq!(report_of("x", vec![one]).score, 1000);
    let mut some: Vec<_> = (0..4).map(|_| check("a", false, u32::MAX)).collect();
    assert_eq!(report_of("x", vec![check("a", false, u32::MAX)]).score, 0);
    some[0].passed = true;
    assert_eq!(report_of("x", some).score, 250);
}

#[test]
fn a_tree_that_is_not_here_is_asked_for() {
    let some = Some("/repo".to_string());
    assert_eq!(ensure_base("c1", true, true, &some), Ok(Base::Cached));
    assert_eq!(ensure_base("c1", false, true, &some), Ok(Base::Sent));
    let need = ensure_base("c1", false, false, &some).unwrap_err();
    assert_eq!(need.detail, "this runner has not seen that commit; post `base_tree` with it");
    assert_eq!(ensure_base("", false, true, &some), Ok(Base::Checkout("/repo".to_string())));
    let need = ensure_base("", true, true, &None).unwrap_err();
    assert_eq!(
        need,
        NeedTree {
            base_commit: String::new(),
            detail: "no `base_commit` given and this runner was started without --base".into()
        }
    );
    let j = need_json(&uncached("c1", "disk full"));
    assert_eq!(j.text_field("detail").unwrap(), "could not cache the tree: disk full");
    assert_eq!(j.field("need_base_tree").unwrap().truth(), Some(true));
}

#[test]
fn headers_say_how_the_body_comes() {
    let head = b"POST / HTTP/1.1\r\nTransfer-Encoding: Chunked\r\n\r\nrest";
    assert_eq!(find_headers_end(head), Some(head.len() - 4));
    assert_eq!(find_headers_end(b"a\r\n"), None);
    assert!(is_chunked(head));
    assert!(!is_chunked(b"transfer-encoding: gzip"));
    assert_eq!(content_length(b"x\r\nContent-Length:  12 \r\n"), Some(12));
    assert_eq!(content_length(b"content-length: -1"), None);
    assert_eq!(content_length(b"nothing"), None);
}

#[test]
fn a_body_in_chunks_comes_out_whole() {
    let body = b"5\r\nhello\r\n A \r\n0123456789\r\n0\r\n\r\n";
    assert!(chunk_body_complete(body));
    assert_eq!(dechunk(body), b"hello0123456789".to_vec());
    let mut more = body.to_vec();
    more.extend(b"5\r\nnever");
    assert_eq!(dechunk(&more), b"hello0123456789".to_vec());
    assert!(!chunk_body_complete(&body[..body.len() - 6]));
    assert_eq!(dechunk(b"5\r\nhel"), b"hel".to_vec());
    assert!(!chunk_body_complete(b"ffffffffffffffff\r\nx"));
    assert_eq!(dechunk(b"zz\r\nx"), Vec::<u8>::new());
}

#[test]
fn a_request_is_read_until_it_is_whole() {
    let mut i = Incoming::new();
    assert!(!i.take(&b"POST / HTTP/1.1\r\ncontent-le".to_vec()));
    assert!(!i.take(&b"ngth: 5\r\n\r\nhel".to_vec()));
    assert!(i.take(&b"lo".to_vec()));
    assert_eq!(i.body(), Some(b"hello".to_vec()));

    let mut i = Incoming::new();
    assert!(!i.take(&b"POST / HTTP/1.1\r\ntransfer-encoding: chunked\r\n\r\n2\r\nhi\r\n".to_vec()));
    assert!(i.take(&b"0\r\n\r\n".to_vec()));
    assert_eq!(i.body(), Some(b"hi".to_vec()));
    assert_eq!(Incoming::new().body(), None);
}

#[test]
fn an_answer_counts_its_bytes() {
    assert_eq!(
        respond(409, "é"),
        "HTTP/1.1 409 OK\r\ncontent-type: application/json\r\ncontent-length: 2\r\nconnection: close\r\n\r\né"
    );
}

#[test]
fn a_runner_that_would_refuse_everything_does_not_start() {
    assert_eq!(
        unstarted(0, None),
        Some("no --allow given; this runner would refuse every check".to_string())
    );
    assert_eq!(unstarted(1, None), None);
    assert_eq!(unstarted(1, Some(("/src", true))), None);
    assert_eq!(unstarted(1, Some(("/src", false))), Some("--base /src is not a directory".to_string()));
}

#[test]
fn a_need_is_a_conflict_and_a_verdict_a_success() {
    assert_eq!(answer(Ended::Needs("{}")), respond(409, "{}"));
    assert_eq!(answer(Ended::Judged("[]")), respond(200, "[]"));
    assert_eq!(answer(Ended::NoHeaders), respond(400, r#"{"error":"no headers"}"#));
    assert_eq!(answer(Ended::Unreadable("eof")), respond(400, r#"{"error":"bad request: eof"}"#));
    assert_eq!(answer(Ended::Broke("disk")), respond(500, r#"{"error":"disk"}"#));
}

#[test]
fn changes_are_written_up_to_the_first_that_escapes() {
    let change = |p: &str| FileChange { path: p.to_string(), content: String::new() };
    assert_eq!(apply(&vec![change("a"), change("b/c")]), (2, None));
    assert_eq!(
        apply(&vec![change("a"), change("../b"), change("c")]),
        (1, Some("\"../b\" is not a path inside the tree".to_string()))
    );
}

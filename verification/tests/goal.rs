use comp_tools::goal::candidate::{base_tree, excused, gate_can_judge, gates_missing_from_the_tree, goes_on, judged, may_write_out, new_capabilities, reason_line, shipped_list, ships, write_candidate, Criticism, Judgement, TreeRefusal};
use comp_tools::goal::compose::{attempt_branch, blame, composed_landing, contract_refused, contract_version, failing_detail, linked, part_line, part_names, part_outcome, part_plan, registered_line, unlanded, ContractRefusal, Ending, Registered};
use comp_tools::goal::context::{branch_context, first_line, join_failure_owners, lean_context, part_context, pool_context, wanted_paths, Capability, Shown};
use comp_tools::goal::deploy::{artifacts, base_url, contract_database, deploy_refused, deployment, egress_authority, egress_socket, fleet_timeout, provider_wasm, rejected, render, render_specs, sql_url, warm_caches, warms, CheckPaths, DeployArgs, DeployRefusal, Runner};
use comp_tools::goal::flow::{composed_winner, outcome_text, start, Action, Event, Outcome, Recalled};
use comp_tools::goal::manifest::{component_scope, trim_members};
use comp_tools::goal::pool::{apps_of, forgot_line, part_taught_line, promote_and_sweep, promote_parts, recall_line, search_the_pool, seeded, taught_line, worth_running, PartEnded, Taught};
use comp_tools::goal::run::{allowance, allowed_commands, attempt_outcome, branch_index, branch_line, dry_run, every_check, header, host_line, landing, log_tail, nothing_passed, recorded_line, seeded_base, ship_tree, smoke_plan, unseeded, wants_logs, warn_timeout, winner, Entry, Header};
use comp_tools::goal::smoke::{registry, replied, smoke};
use comp_tools::goal::spec::{CheckSpec, GoalSpec, PartSpec};
use comp_tools::json::{parse, Json};

fn texts(v: &[&str]) -> Vec<String> {
    v.iter().map(|s| s.to_string()).collect()
}

#[test]
fn a_component_name_derives_its_build_scope() {
    let (base_paths, manifest, members) = component_scope("rot13");
    assert_eq!(base_paths, ["components/rot13/", "components/Cargo.toml"]);
    assert_eq!(manifest, "components/Cargo.toml");
    assert_eq!(members, ["rot13"], "the workspace is trimmed to just this crate");
}

#[test]
fn trimming_keeps_the_rest_of_the_manifest() {
    let m = "[workspace]\nmembers = [\"a\", \"b\", \"c\"]\nresolver = \"2\"\n";
    let out = trim_members(m, &vec!["b".to_string()]);
    assert!(out.contains("members = [\"b\"]"), "trimmed to the one member");
    assert!(out.contains("resolver = \"2\""), "the rest survives");
}

#[test]
fn a_bracket_inside_a_comment_does_not_close_the_members_list() {
    let manifest = [
        "[workspace]\n",
        "resolver = \"2\"\n",
        "members = [\n",
        "    # `bench-suite-p3` stays out: it declares its own `[workspace]`, so\n",
        "    # adding it is \"multiple workspace roots\".\n",
        "    \"ai-inference\",\n",
        "    \"card-identify\",\n",
        "]\n",
        "[workspace.package]\n",
        "version = \"0.1.0\"\n",
    ]
    .concat();
    let out = trim_members(&manifest, &vec!["card-identify".to_string()]);
    assert!(out.contains("members = [\"card-identify\"]"), "{out}");
    assert!(!out.contains("ai-inference"), "the other members are gone: {out}");
    assert!(out.contains("[workspace.package]"), "the rest of the manifest survives: {out}");
    assert!(
        !out.contains("adding it is"),
        "the comment inside the list went with the list, leaving no dangling prose: {out}"
    );
    let parsed: Result<toml::Value, _> = toml::from_str(&out);
    assert!(parsed.is_ok(), "the trimmed manifest is not valid TOML: {:?}\n{out}", parsed.err());
}

#[test]
fn a_join_failure_names_the_part_that_owns_it_or_says_it_owns_none() {
    let part = |name: &str, w: &str| PartSpec {
        name: name.into(),
        text: "t".into(),
        writable: vec![w.into()],
        context: vec![],
        checks: vec![],
    };
    let parts = vec![
        part("backend", "components/x/src/api.rs"),
        part("frontend", "components/x/ui/app.tsx"),
    ];

    assert_eq!(
        join_failure_owners("assertion failed at components/x/src/api.rs:22", &parts),
        vec!["backend"],
        "a path it owns"
    );
    assert_eq!(
        join_failure_owners("the frontend never called /api/total", &parts),
        vec!["frontend"],
        "its own name"
    );
    assert_eq!(
        join_failure_owners(
            "components/x/src/api.rs disagrees with components/x/ui/app.tsx",
            &parts
        ),
        vec!["backend", "frontend"],
        "both, when both are named — a boundary disagreement is not one part's"
    );
    assert!(
        join_failure_owners("the halves pass alone and not together (score 400)", &parts)
            .is_empty(),
        "names no part, so the JOIN owns it"
    );
}

#[test]
fn a_path_in_both_lists_is_shown_once_with_its_comments() {
    let both = texts(&["a.wit"]);
    let wit = "// a comment\npackage a:b@0.1.0;\n";
    let want = wanted_paths(&both, &both);
    assert_eq!(want, vec![("a.wit".to_string(), false)]);
    let out = branch_context(&want, vec![Some(wit.to_string())]);
    assert_eq!(out[0].content, wit);
    let readonly = wanted_paths(&vec![], &texts(&["a.wit", "t.rs", "nope.rs", "a.wit"]));
    assert_eq!(readonly.len(), 3);
    let shown = branch_context(&readonly, vec![Some(wit.to_string()), Some("//! the spec\n".into()), None]);
    assert_eq!(shown.len(), 2, "what could not be read is left out");
    assert_eq!(shown[0].content, "package a:b@0.1.0;");
    assert_eq!(shown[1].content, "//! the spec\n");
}

#[test]
fn interfaces_lose_their_comment_lines_and_nothing_else_does() {
    assert_eq!(lean_context("x.wit", "a\n  // b\nc // d\n///e".to_string()), "a\nc // d");
    assert_eq!(lean_context("x.rs", "// b\n".to_string()), "// b\n");
}

#[test]
fn what_the_pool_has_comes_last() {
    let own = vec![Shown { path: "own.rs".into(), content: "fn stub() {}\n".into() }];
    let pool = pool_context(&vec![Capability {
        name: "auth-guard".into(),
        apps: 3,
        exports: texts(&["auth:identity", "auth:check"]),
        description: "who is asking".into(),
    }]);
    let with = part_context(own, pool);
    assert_eq!(with.len(), 2);
    assert_eq!(with[1].path, "POOL.md");
    assert!(with[1].content.ends_with(
        "called.\n\n- `auth-guard` (in 3 app(s)) exports auth:identity, auth:check — who is asking\n"
    ));
    assert!(pool_context(&vec![]).is_none());
    assert_eq!(part_context(with, None).len(), 2);
}

#[test]
fn a_failure_is_reported_by_its_first_line() {
    assert_eq!(first_line("  one \n two"), "one");
    assert_eq!(first_line(""), "");
}

// --------------------------------------------------------------- candidates --

fn goal(command: &[&str]) -> GoalSpec {
    GoalSpec {
        text: "t".into(),
        writable: vec![],
        title: None,
        base_paths: vec![],
        workspace_manifest: None,
        keep_members: vec![],
        component: None,
        context: vec![],
        checks: vec![check("spec", command)],
        contract: None,
        parts: vec![],
    }
}

fn check(id: &str, command: &[&str]) -> CheckSpec {
    CheckSpec {
        id: id.into(),
        may_pass_base: false,
        required: true,
        weight: 1,
        command: texts(command),
        needs: vec![],
    }
}

fn part(name: &str, writable: &str) -> PartSpec {
    PartSpec {
        name: name.into(),
        text: "do it".into(),
        writable: vec![writable.into()],
        context: vec![],
        checks: vec![check("p", &["uv", "run"])],
    }
}

fn document(text: &str) -> Json {
    parse(text).expect("a document")
}

fn text_field(j: &Json, key: &str) -> String {
    j.text_field(key).expect("a text").clone()
}

#[test]
fn a_gate_script_missing_from_the_tree_is_refused() {
    let tree = texts(&["components/x/shipped.sh"]);
    let disk = texts(&[]);

    assert!(
        gates_missing_from_the_tree(&goal(&["bash", "components/x/shipped.sh"]), &tree, &disk).is_empty(),
        "a shipped script is fine"
    );

    let missing = gates_missing_from_the_tree(&goal(&["bash", "components/x/absent.sh"]), &tree, &disk);
    assert_eq!(missing.len(), 1, "{missing:?}");
    assert!(missing[0].contains("absent.sh"), "{}", missing[0]);
    assert!(missing[0].contains("no such file"), "not on disk either, so say so: {}", missing[0]);

    let unshipped = gates_missing_from_the_tree(
        &goal(&["bash", "components/x/absent.sh"]),
        &tree,
        &texts(&["components/x/absent.sh"]),
    );
    assert_eq!(unshipped.len(), 1);
    assert!(!unshipped[0].contains("no such file"), "{}", unshipped[0]);

    for cmd in [
        vec!["cargo", "test", "-p", "card-identify"],
        vec!["curl", "-sf", "http://127.0.0.1:8080/health"],
        vec!["just", "e2e-binder"],
        vec!["bash", "-c", "cd components && cargo test"],
    ] {
        assert!(
            gates_missing_from_the_tree(&goal(&cmd), &tree, &disk).is_empty(),
            "{cmd:?} names no repo script and must not be refused"
        );
    }
}

#[test]
fn only_components_count_as_a_new_capability() {
    let files = document(
        r#"[
            { "path": "components/csv-codec/src/lib.rs", "content": "" },
            { "path": "components/csv-codec/Cargo.toml", "content": "" },
            { "path": "apps/vet/src/main.rs", "content": "" },
            { "path": "README.md", "content": "" },
            { "path": "components/paginate/wit/p.wit", "content": "" }
        ]"#,
    );
    assert_eq!(
        new_capabilities(&files),
        vec![
            ("csv-codec".to_string(), "components/csv-codec".to_string()),
            ("paginate".to_string(), "components/paginate".to_string()),
        ],
        "one entry per COMPONENT, not per file, and nothing outside components/"
    );
}

#[test]
fn a_run_that_built_no_component_adds_no_capability() {
    let files = document(
        r#"[
            { "path": "apps/vet/src/main.rs", "content": "" },
            { "path": "components/", "content": "" }
        ]"#,
    );
    assert!(new_capabilities(&files).is_empty());
}

#[test]
fn a_tree_is_shipped_where_it_is_some_and_not_too_much() {
    assert!(ships("components/x/a.rs", &texts(&["components/x/"])));
    assert!(!ships("apps/a.rs", &texts(&["components/x/"])));
    let paths = shipped_list("components/x/a.rs\napps/b.rs\ncomponents/x/c.bin\n", &texts(&["components/x/"]));
    assert_eq!(paths, ["components/x/a.rs", "components/x/c.bin"]);
    let tree = base_tree(&paths, vec![Some("é9".to_string()), None], 3).expect("small enough");
    assert_eq!(tree, vec![Shown { path: "components/x/a.rs".to_string(), content: "é9".to_string() }]);
    assert_eq!(base_tree(&paths, vec![Some("é9".to_string()), None], 2), Err(TreeRefusal::TooLarge));
    assert_eq!(base_tree(&paths, vec![None, None], 9), Err(TreeRefusal::Nothing));
    let files = document(
        r#"[{"path":"a/b.rs","content":"x"},{"path":"../c","content":"y"},{"path":"/d","content":"z"},{"path":"e"}]"#,
    );
    assert_eq!(write_candidate(&files), vec![Shown { path: "a/b.rs".to_string(), content: "x".to_string() }]);
    assert!(write_candidate(&document("{}")).is_empty());
    assert_eq!(reason_line(" first \nsecond"), "  · first");
    assert_eq!(reason_line(&"x".repeat(200)), format!("  · {}", "x".repeat(160)));
    assert!(may_write_out("components/x/a.rs"));
    assert!(!may_write_out("../a.rs"));
    assert!(!may_write_out("/a.rs"));
}

#[test]
fn checks_that_cannot_judge_stop_a_run() {
    assert_eq!(gate_can_judge(1, Some(0)), Judgement::ScriptMissing);
    assert_eq!(gate_can_judge(0, Some(2)), Judgement::Vacuous);
    assert_eq!(gate_can_judge(0, Some(0)), Judgement::CanJudge);
    assert_eq!(gate_can_judge(0, None), Judgement::NotTried);
    assert!(!goes_on(Judgement::Vacuous));
    assert!(!goes_on(Judgement::ScriptMissing));
    assert!(goes_on(Judgement::NotTried));
    assert!(goes_on(Judgement::CanJudge));
    let seen = |excused: &[&str], refusals: &[&str]| -> Result<Criticism, String> {
        Ok(Criticism { excused: texts(excused), refusals: texts(refusals) })
    };
    assert_eq!(
        judged(&texts(&["`a` runs `x.sh`"]), &seen(&[], &[])),
        (
            texts(&[
                "\nREFUSED — a gate that cannot run cannot judge:\n",
                "  · `a` runs `x.sh`",
                "\nNothing was spent. Every branch would have scored zero for this reason.",
            ]),
            Judgement::ScriptMissing
        )
    );
    assert_eq!(
        judged(&texts(&[]), &Err("down".to_string())),
        (texts(&["gate: could not be criticised (down) — running anyway"]), Judgement::NotTried)
    );
    assert_eq!(
        judged(&texts(&[]), &seen(&["old"], &["`new` passes"])),
        (
            texts(&[
                "gate: `old` passes on the base, and says it is meant to",
                "\nREFUSED — this gate cannot judge anything:\n",
                "  · `new` passes",
                "\nNothing was spent. A gate that passes on the code as it stands \naccepts a candidate that changes nothing.",
            ]),
            Judgement::Vacuous
        )
    );
    assert_eq!(
        judged(&texts(&[]), &seen(&["old"], &[])),
        (
            texts(&[
                "gate: `old` passes on the base, and says it is meant to",
                "gate: every check fails on the base tree, so every check can judge",
            ]),
            Judgement::CanJudge
        )
    );
    let mut g = goal(&["cargo"]);
    g.checks[0].may_pass_base = true;
    g.parts = vec![part("backend", "a")];
    g.parts[0].checks[0].may_pass_base = true;
    assert_eq!(excused(&g), ["spec", "p"]);
}

// -------------------------------------------------------------------- runs --

#[test]
fn a_run_goes_from_its_seed_to_its_landing() {
    assert!(start(&GoalSpec { checks: vec![], ..goal(&["x"]) }, false, false).is_err());
    let mut r = start(&goal(&["cargo"]), false, false).expect("a run");
    let steps = [
        (Action::Seed, Event::Seeded(true)),
        (Action::Judge, Event::Judged(true)),
        (Action::Recall, Event::Recalled(Recalled::Unreachable)),
        (Action::Search, Event::Found(true)),
        (Action::Land, Event::Landed(true)),
    ];
    for (a, e) in steps {
        assert_eq!(r.action(), a);
        r.step(e);
    }
    assert_eq!(r.action(), Action::Exit(0));
    assert_eq!(r.outcome, Some(Outcome::Merged));
}

#[test]
fn a_run_that_ends_early_says_how() {
    let after = |smoke, dry, events: Vec<Event>| {
        let mut r = start(&goal(&["cargo"]), smoke, dry).expect("a run");
        for e in events {
            r.step(e);
        }
        (r.action(), r.outcome, r.spent)
    };
    assert_eq!(after(false, false, vec![Event::Seeded(false)]).0, Action::Unseeded);
    assert_eq!(
        after(false, false, vec![Event::Seeded(true), Event::Judged(false)]),
        (Action::Exit(4), None, false)
    );
    assert_eq!(
        after(true, false, vec![Event::Seeded(true), Event::Judged(true), Event::SmokeDone]),
        (Action::Exit(0), None, false)
    );
    let known = vec![Event::Seeded(true), Event::Judged(true), Event::Recalled(Recalled::AlreadyDone)];
    assert_eq!(after(false, false, known), (Action::Exit(0), None, false));
    let lost = vec![
        Event::Seeded(true),
        Event::Judged(true),
        Event::Recalled(Recalled::NoPool),
        Event::Found(false),
    ];
    assert_eq!(after(false, false, lost), (Action::Exit(3), Some(Outcome::Exhausted), true));
    let dry = vec![
        Event::Seeded(true),
        Event::Judged(true),
        Event::Recalled(Recalled::NothingOnRecord),
        Event::Found(true),
        Event::WrittenOut,
    ];
    assert_eq!(after(false, true, dry), (Action::Exit(0), Some(Outcome::DryRun), true));
    let said = [Outcome::Exhausted, Outcome::DryRun, Outcome::Merged, Outcome::Failed].map(outcome_text);
    assert_eq!(said, ["exhausted", "dry-run", "merged", "failed"]);
    assert_eq!(composed_winner(Outcome::Merged), Some("composition"));
    assert_eq!(composed_winner(Outcome::DryRun), None);
}

fn entry(branch: &str, accepted: bool, score: u64) -> Entry {
    Entry {
        branch: branch.to_string(),
        accepted,
        score,
        spent_tokens: 1,
        attempts: 1,
        files: 1,
        note: String::new(),
    }
}

#[test]
fn the_best_accepted_branch_wins() {
    let es = vec![entry("a-0", false, 900), entry("a-1", true, 500), entry("a-2", true, 700), entry("a-3", true, 700)];
    assert_eq!(winner(&es), Some(2));
    assert_eq!(winner(&vec![entry("a-0", false, 1)]), None);
    assert_eq!(branch_index("branch-12"), Some(12));
    assert_eq!(branch_index("branch"), None);
    assert!(!wants_logs(&es));
    assert!(wants_logs(&vec![Entry { spent_tokens: 0, ..entry("a", false, 0) }]));
    assert_eq!(attempt_outcome(true), "passed");
    assert_eq!(attempt_outcome(false), "failed");
    assert_eq!(part_outcome(&Entry { files: 0, ..entry("a", false, 0) }), "errored");
    assert_eq!(log_tail("host n1", "a\nb\nc\n", 2), "\n===== host n1 (last 2 lines) =====\nb\nc");
}

#[test]
fn a_plan_carries_the_goal_and_no_tree() {
    let mut g = goal(&["cargo", "test"]);
    g.writable = texts(&["src/lib.rs"]);
    g.title = None;
    g.text = "make it so\nand more".to_string();
    let shown = vec![Shown { path: "a".to_string(), content: "x".to_string() }];
    let j = smoke_plan(&g, &shown, "abc");
    assert_eq!(text_field(&j, "base_commit"), "abc");
    assert_eq!(j.field("max_attempts").and_then(|n| n.number()), Some(0));
    assert_eq!(j.field("base_tree"), Some(&Json::List(vec![])));
    let l = landing(&g, "main", 7, 3);
    assert_eq!(text_field(&l, "branch"), "graph/7");
    assert_eq!(text_field(&l, "title"), "make it so");
    assert_eq!(text_field(&l, "message"), "make it so");
    assert!(text_field(&l, "body").contains("3 branch(es) explored this goal"));
    assert_eq!(warn_timeout(1000, 2), None);
    assert!(warn_timeout(100, 2).expect("a warning").contains("(~330s needed)"));
    assert_eq!(
        warn_timeout(100, 2).expect("a warning").lines().map(str::trim).collect::<Vec<_>>(),
        [
            "WARNING: --timeout 100s cannot hold 2 sequential model calls (~330s needed).",
            "A branch that runs out dies with `error sending request` and NO attempts.",
            "Raise --timeout or lower --attempts.",
        ]
    );
    g.parts = vec![part("backend", "a")];
    assert_eq!(allowed_commands(&g), ["cargo", "uv"]);
    let all = every_check(&g);
    let ids: Vec<String> = all.list().expect("a list").iter().map(|c| text_field(c, "id")).collect();
    assert_eq!(ids, ["spec", "p"]);
    let allow = allowed_commands(&g);
    assert_eq!(allowance(&allow, None), "gate allows: [\"cargo\", \"uv\"]");
    assert!(allowance(&allow, Some(&"http://r".to_string())).starts_with("gate needs: [\"cargo\", \"uv\"] — "));
    assert_eq!(host_line("/h", true), "gate host:   /h (found)");
    assert_eq!(
        branch_line(1, &Entry { note: "late".to_string(), ..entry("b-0", true, 900) }),
        "  gen 1 b-0       accepted=true  score=900   attempts=1 tokens=1 [late]"
    );
    assert!(nothing_passed(Some(400)).ends_with("gate (best score 400). No PR opened."));
    assert!(nothing_passed(None).contains("best score 0"));
}

#[test]
fn a_run_says_what_it_does_and_where_its_work_went() {
    let h = Header { text: "add a box\nand more", repo: "o/r", base: "main", branches: 4, rounds: 2, model: "m" };
    assert_eq!(header(&h), "goal: add a box\nrepo: o/r  base: main  branches: 4  rounds: 2  model: m");
    assert_eq!(seeded_base("0123456789", 12), "gate: base 01234567 seeded (12 files)");
    assert_eq!(seeded_base("abc", 0), "gate: base abc seeded (0 files)");
    let lost = unseeded("down");
    assert!(lost.starts_with("could not give the"));
    assert!(lost.contains(" gate runner the base tree: down\n\nNothing was spent. Every branch would have failed identically, because"));
    assert_eq!(
        dry_run(Some(900), &Ok("/d".to_string())),
        "\n[dry run] a candidate passed (score 900); not opening a PR.\n  the winning files are in /d\n  apply:   rsync -a /d/ .\n  inspect: diff -ru . /d | head -n 100"
    );
    assert!(dry_run(Some(1), &Err("full".to_string()))
        .ends_with("\n  WARNING: the winner could not be written out (full) — it is lost"));
    assert_eq!(
        dry_run(None, &Ok("/d".to_string())),
        "\n[dry run] the join passed; not opening a PR.\n  the joined tree is in /d\n  apply: rsync -a /d/ ."
    );
    assert!(dry_run(None, &Err("full".to_string()))
        .ends_with("\n  WARNING: the joined tree could not be written out (full) — it is lost"));
}

// -------------------------------------------------------------------- pool --

#[test]
fn an_unreachable_pool_means_do_the_work() {
    assert!(worth_running(Recalled::Unreachable));
    assert!(worth_running(Recalled::NoPool));
    assert!(worth_running(Recalled::NothingOnRecord));
    assert!(!worth_running(Recalled::AlreadyDone));
    assert_eq!(
        recall_line(Recalled::Unreachable, "down"),
        Some("could not ask the knowledge pool (down) — doing the work".to_string())
    );
    assert_eq!(recall_line(Recalled::NoPool, ""), None);
    assert_eq!(
        recall_line(Recalled::AlreadyDone, "a shop, 0.93 alike"),
        Some("\nALREADY DONE — a shop, 0.93 alike".to_string())
    );
}

#[test]
fn a_search_is_told_and_cut_to_five() {
    let hit = |name: &str| Capability {
        name: name.to_string(),
        apps: 3,
        exports: texts(&["a:b/c"]),
        description: "d".repeat(100),
    };
    let (lines, kept) = search_the_pool(&vec![]);
    assert_eq!(lines.len(), 1);
    assert!(kept.is_empty());
    let hits: Vec<Capability> = ["a", "b", "c", "d", "e", "f"].iter().map(|n| hit(n)).collect();
    let (lines, kept) = search_the_pool(&hits);
    assert_eq!(lines[0], "capability search: 6 candidate(s) the pool already has:");
    assert_eq!(lines[1], format!("  {:<22} 3 app(s)  {}", "a", "d".repeat(88)));
    assert_eq!(lines.len(), 7);
    assert_eq!(kept.len(), 5);
    assert_eq!(kept[4], hits[4]);
    let closures = vec![texts(&["x", "y"]), texts(&["y"]), texts(&[])];
    assert_eq!(apps_of(&closures, "y"), Some(2));
    assert_eq!(apps_of(&closures, "z"), Some(0));
}

#[test]
fn only_what_passed_teaches_the_pool() {
    assert_eq!(promote_and_sweep(false, Some(true), 9), (false, false));
    assert_eq!(promote_and_sweep(true, Some(true), 9), (true, true));
    assert_eq!(promote_and_sweep(true, Some(false), 0), (false, false));
    assert_eq!(promote_and_sweep(true, None, 1), (false, true));
    let ended = |part: &str, best_accepted| PartEnded { part: part.to_string(), best_accepted };
    let parts = vec![part("a", "x"), part("b", "y")];
    assert_eq!(
        promote_parts(
            &vec![ended("b", Some(true)), ended("a", Some(false)), ended("c", Some(true)), ended("a", Some(true))],
            &parts
        ),
        vec![(0, 1), (3, 0)]
    );
    assert_eq!(taught_line(Taught::Promoted("p1", "do x")), "\npromoted to patterns: p1\n  do x");
    assert_eq!(part_taught_line("a", Taught::Nothing), "  a taught nothing transferable, and said so");
    assert_eq!(taught_line(Taught::NotTaken("full")), "\n(nothing promoted: full)");
    assert_eq!(part_taught_line("a", Taught::Unreachable("down")), "  a — the distiller could not be reached: down");
    assert_eq!(forgot_line(0, 30), None);
    assert_eq!(forgot_line(1, 30), Some("knowledge: forgot 1 entry nothing had read in 30 days".to_string()));
    assert_eq!(forgot_line(2, 30), Some("knowledge: forgot 2 entries nothing had read in 30 days".to_string()));
    assert_eq!(seeded(5, 0), "capability graph seeded into the pool at generation 5");
    assert_eq!(seeded(5, 2), "capability graph partly seeded: 2 statement(s) rejected");
}

#[test]
fn a_workspace_is_trimmed_on_its_way_out() {
    let mut g = goal(&["cargo"]);
    g.component = Some("b".to_string());
    let g = g.scoped();
    assert_eq!(g.keep_members, ["b"]);
    let tree = vec![
        Shown { path: "components/Cargo.toml".to_string(), content: "members = [\"a\", \"b\"]\n".to_string() },
        Shown { path: "other".to_string(), content: "members = [\"a\"]\n".to_string() },
    ];
    let out = ship_tree(tree, &g);
    assert_eq!(out[0].content, "members = [\"b\"]\n");
    assert_eq!(out[1].content, "members = [\"a\"]\n");
}

// ------------------------------------------------------------- composition --

#[test]
fn two_parts_do_not_share_one_attempt_key() {
    let a = attempt_branch("access-and-search", "branch-0");
    let b = attempt_branch("reports", "branch-0");
    assert_eq!(a, "access-and-search/branch-0");
    assert_ne!(a, b, "the part name must be part of the key");
    assert_ne!(b, attempt_branch("reports", "branch-1"));
}

#[test]
fn a_contract_is_published_once() {
    let held = |number, body: &str| Ok(Registered { number, body: body.to_string() });
    let taken = || Err("v1 already published".to_string());
    assert_eq!(contract_version(Ok(3), taken_none(), "x"), Ok(3));
    assert_eq!(contract_version(taken(), held(2, " {} \n"), "{}"), Ok(2));
    assert!(matches!(
        contract_version(taken(), held(2, "{}"), "[]"),
        Err(ContractRefusal::Differs { number: 2, .. })
    ));
    assert_eq!(
        contract_version(taken(), Err("gone".to_string()), "{}"),
        Err(ContractRefusal::Unreadable("gone".to_string()))
    );
    assert_eq!(
        contract_version(Err("down".to_string()), held(1, ""), ""),
        Err(ContractRefusal::Unpublished("down".to_string()))
    );
    assert_eq!(
        contract_refused(&ContractRefusal::Unpublished("down".to_string()), "api.wit"),
        "publishing the contract: down"
    );
    assert_eq!(
        contract_refused(&ContractRefusal::Unreadable("gone".to_string()), "api.wit"),
        "a contract is registered but unreadable: gone"
    );
    let differs = ContractRefusal::Differs { number: 2, registered: "a".to_string(), file: "b".to_string() };
    let said = contract_refused(&differs, "api.wit");
    assert!(said.starts_with("the registry holds a contract v2 that is not what api.wit says.\n\nIf an"));
    assert!(said.ends_with("database of its own.\n\nregistered: a\n\nthe file:   b"));
}

fn taken_none() -> Result<Registered, String> {
    Err("unasked".to_string())
}

#[test]
fn a_failed_join_is_reported_with_its_owner() {
    let parts = vec![part("backend", "src/api.rs"), part("frontend", "ui/app.ts")];
    assert_eq!(part_names(&parts), "backend, frontend");
    assert_eq!(blame("src/api.rs broke\nbadly", &parts), "owned by backend: src/api.rs broke");
    assert_eq!(blame("who knows", &parts), "the JOIN owns this, not a part: who knows");
    assert_eq!(failing_detail("1\n\n2\n3\n4\n5\n6\n \n7\n"), "2\n      3\n      4\n      5\n      6\n      7");
    let mut g = goal(&["x"]);
    g.parts = parts;
    let j = composed_landing(&g, "main", 99, 4, 900, &texts(&["backend asked for total"]));
    assert_eq!(text_field(&j, "branch"), "comp/goal-99");
    assert!(text_field(&j, "body").contains("2 part(s) built against contract v4; the join passed at score 900."));
    assert!(text_field(&j, "body").contains("- backend asked for total"));
    assert_eq!(
        part_line("backend", true, Some(900), 2, 4),
        "  backend          accepted=true  score=900   generations=2 against contract v4"
    );
    let own = vec![Shown { path: "a.rs".to_string(), content: "x".to_string() }];
    let planned = part_plan(&part("backend", "a.rs"), &own, "abc", 3);
    assert_eq!(text_field(&planned, "text"), "do it");
    assert_eq!(text_field(&planned, "base_commit"), "abc");
    assert_eq!(planned.field("max_attempts").and_then(|n| n.number()), Some(3));
    assert_eq!(planned.field("base_tree").and_then(|t| t.list()).map(|t| t.len()), Some(0));
    assert_eq!(linked(0, 2), None);
    assert!(linked(1, 2).expect("a line").starts_with("knowledge: 1/2 part(s) linked to this goal — "));
    assert_eq!(registered_line(1), "contract v1 already registered");
    assert_eq!(registered_line(2), "contract v2 already registered (amended by an earlier run)");
}

// -------------------------------------------------------------- deployment --

#[test]
fn the_egress_authority_comes_from_the_base_url() {
    assert_eq!(egress_authority("https://api.anthropic.com"), "api.anthropic.com");
    assert_eq!(egress_authority("http://127.0.0.1:8787"), "127.0.0.1:8787");
    assert_eq!(egress_authority("http://localhost:8787/v1"), "localhost:8787");
    assert_eq!(egress_authority("https://proxy.internal/anthropic"), "proxy.internal");
    assert_eq!(egress_authority("http://[::1]:8787"), "[::1]:8787");
}

#[test]
fn the_provider_selects_its_own_wasm() {
    for (provider, want) in
        [("openai", "openai_provider.wasm"), ("anthropic", "anthropic_provider.wasm")]
    {
        assert_eq!(provider_wasm(provider), want, "{provider} must ship {want}");
        let all = artifacts(provider);
        assert_eq!(all.iter().filter(|a| a.1 == want).count(), 2);
        assert_eq!(all.len(), 19);
    }
}

fn deploy_args() -> DeployArgs {
    DeployArgs {
        provider: "openai".to_string(),
        llm_base_url: String::new(),
        model: "m".to_string(),
        answer_model: "n".to_string(),
        max_tokens: 9,
        timeout: 3600,
        repo: "a/b".to_string(),
        llm_key: "/k".to_string(),
        github_token: "/t".to_string(),
        surreal_url: Some("http://127.0.0.1:8000/".to_string()),
        surreal_password: None,
    }
}

#[test]
fn a_deployment_names_its_fixtures_and_its_secrets() {
    let runner = Runner { url: "http://c".to_string(), authority: "c".to_string(), token_file: "/r".to_string() };
    let mut g = goal(&["x"]);
    let (fixtures, secrets) = render_specs(&deploy_args(), &g, &runner).expect("deployed");
    let names: Vec<&str> = fixtures.iter().map(|f| f.name.as_str()).collect();
    assert_eq!(names, ["goalrun-driver.yaml", "goalrun-forge.yaml", "goalrun-memory.yaml", "goalrun-answer.yaml"]);
    assert_eq!(secrets, ["vault://acme/llmkey=@/k", "vault://acme/forge=@/t", "vault://acme/checkstoken=@/r"]);
    let yaml = render("PROVIDER:timeout: \"LLM_TIMEOUT\"\nkey: PROVIDER-api-key\n", &fixtures[0].subs);
    assert_eq!(yaml, "openai:timeout: \"3600\"\nkey: openai-api-key\n");
    assert_eq!(base_url(&deploy_args()), "https://api.openai.com/v1");
    g.parts = vec![part("p", "a")];
    assert_eq!(render_specs(&deploy_args(), &g, &runner).err(), Some(DeployRefusal::NoContract));
    let none = DeployArgs { surreal_url: None, ..deploy_args() };
    assert_eq!(render_specs(&none, &g, &runner).err(), Some(DeployRefusal::NoDatabase(1)));
    assert!(deploy_refused(&DeployRefusal::NoDatabase(2)).starts_with("this goal has 2 part(s), which need"));
    assert!(deploy_refused(&DeployRefusal::NoContract).contains("no `contract = \"…\"` — two halves"));
    g.contract = Some("CONTRACT.json".to_string());
    let (fixtures, _) = render_specs(&deploy_args(), &g, &runner).expect("deployed");
    assert_eq!(fixtures[4].name, "goalrun-contract.yaml");
}

#[test]
fn a_goals_database_is_its_own() {
    let mut g = goal(&["x"]);
    g.contract = Some("CONTRACT.json".to_string());
    g.title = Some("abc".to_string());
    assert!(contract_database(&g).starts_with("goalcontract_"));
    assert!(contract_database(&g).ends_with("_ba7816bf"));
    let one = contract_database(&g);
    g.title = Some("abd".to_string());
    assert_ne!(one, contract_database(&g));
}

#[test]
fn the_rest_of_a_deployment() {
    assert_eq!(egress_socket("http://127.0.0.1:8000/rpc"), "127.0.0.1:8000");
    assert_eq!(egress_socket("127.0.0.1:8000"), "127.0.0.1:8000");
    assert_eq!(fleet_timeout(30), 600);
    assert_eq!(fleet_timeout(900), 900);
    assert_eq!(sql_url("http://d//"), "http://d/sql");
    assert_eq!(rejected(r#"[{"status":"OK"},{"status":"ERR"},{"status":"ERR"}]"#), 2);
    assert!(warms(&check("a", &["uv", "run"])));
    assert!(!warms(&check("a", &["bash"])));
    let env = warm_caches(&CheckPaths {
        home: "/h".to_string(),
        host: "/b/host".to_string(),
        plug: "/b/plug".to_string(),
        gates: "/g".to_string(),
        rustup_home: "/r".to_string(),
        toolchain: "stable".to_string(),
    });
    assert_eq!(env[0], "UV_CACHE_DIR=/h/.cache/comp-goalrun/uv");
    assert_eq!(env[9], "RUSTUP_TOOLCHAIN=stable");
    assert_eq!(render("ab", &vec![(String::new(), "-".to_string())]), "-a-b-");
}

#[test]
fn a_smoke_reply_is_shown_without_blanks() {
    assert_eq!(replied(r#"{ "a" : [1, 2.5, "x"] }"#), r#"{"a":[1,2.5,"x"]}"#);
    assert_eq!(replied("<html>"), "null");
}

#[test]
fn a_smoke_run_says_what_it_cannot_show() {
    let plain = smoke(&vec![], "null", "", "", &texts(&["cargo", "uv"]));
    assert_eq!(plain.len(), 8);
    assert_eq!(plain[2], "  · driver reachable → null");
    assert!(plain[6].starts_with("  · that `cargo uv` actually runs under "));
    let parts = vec![part("backend", "a.rs"), part("frontend", "b.rs")];
    let shown = registry(Ok(1), Err("unread".to_string()), "api.wit").expect("usable");
    assert_eq!(
        shown,
        "  · contract v1 published from api.wit → registry → graph → SurrealDB, and the database's secret was granted"
    );
    let lines = smoke(&parts, "{}", &shown, "\"m\"", &texts(&["uv"]));
    assert_eq!(lines.len(), 13);
    assert_eq!(lines[4], shown);
    assert_eq!(lines[6], "  · parts: backend, frontend");
    assert!(lines[11].starts_with("  · that the parts negotiate"));
    let held = registry(Err("409 already published".to_string()), Ok(3), "api.wit").expect("readable");
    assert!(held.starts_with("  · contract v3 already in the registry"));
    assert_eq!(
        registry(Err("already published".to_string()), Err("gone".to_string()), "x"),
        Err("the registry has a contract it cannot read back: gone".to_string())
    );
    assert_eq!(
        registry(Err("down".to_string()), Ok(3), "x"),
        Err("the contract registry is not usable: down".to_string())
    );
}

#[test]
fn a_fleet_starts_only_from_what_is_built() {
    let n = artifacts("openai").len();
    let d = deployment(texts(&["a.yaml"]), texts(&["s"]), "openai", "/out", &vec![true; n]).expect("built");
    assert_eq!((d.specs, d.secrets), (texts(&["a.yaml"]), texts(&["s"])));
    assert_eq!(d.artifacts.len(), n);
    assert_eq!(d.artifacts[0], "cprobe=/out/contract_probe.wasm");
    assert_eq!(d.artifacts[4], "allm=/out/openai_provider.wasm");
    let mut present = vec![true; n];
    present[1] = false;
    present[3] = false;
    assert_eq!(
        deployment(vec![], vec![], "openai", "/out/", &present),
        Err("missing /out/contract_registry.wasm — run `cargo xtask build --force`".to_string())
    );
}

#[test]
fn the_last_trim_wins() {
    let m = "[workspace]\nmembers = [\n  \"a\", # ]\n  \"b\",\n]\nx = [1]\n";
    let (first, second) = (texts(&["c]", "d#\ne"]), texts(&["f"]));
    let once = trim_members(m, &second);
    assert_eq!(once, "[workspace]\nmembers = [\"f\"]\nx = [1]\n");
    assert_eq!(trim_members(&trim_members(m, &first), &second), once);
    assert_eq!(trim_members(&once, &second), once);
    assert_eq!(trim_members(&trim_members(m, &vec![]), &second), once);
}

#[test]
fn the_pool_says_how_many_verdicts_it_took() {
    assert_eq!(
        recorded_line(3, 4),
        "knowledge: 3/4 verdicts recorded — a later run asking for this goal \n               will see them"
    );
}

#[test]
fn a_run_that_lands_nothing_says_why() {
    let parts = vec![part("backend", "src/api.rs"), part("frontend", "ui/app.ts")];
    let end = |part: &str, accepted: bool, failures: &[(&str, &str)]| Ending {
        part: part.to_string(),
        accepted,
        failures: failures.iter().map(|(a, b)| (a.to_string(), b.to_string())).collect(),
    };
    let blocked = texts(&["src/api.rs broke\nbadly", "who knows"]);
    let ends = vec![end("backend", true, &[("a", "x")]), end("frontend", false, &[("b", "1\n\n2")]), end("none", false, &[])];
    let told = unlanded(&blocked, &ends, &parts, true);
    assert_eq!(
        told,
        [
            "\nNo PR opened:",
            "  · src/api.rs broke\nbadly",
            "  · who knows",
            "\n  frontend was still failing:",
            "    · b: 1\n      2",
            "  · owned by backend: src/api.rs broke",
            "  · the JOIN owns this, not a part: who knows",
        ]
    );
    assert_eq!(unlanded(&blocked, &ends, &parts, false), told[..5]);
}

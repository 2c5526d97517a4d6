use comp_tools::matrix::{app_spec, complaints, component, curve, custom_section, diagnosis, door, drift, failures_line, host, lattice, leb128, loop_text, modes, partner, refusals_line, opening_line, report, write_inputs, Cell, Curve, Key};

#[test]
fn numbers_take_seven_bits_a_byte() {
    let mut out = vec![9u8];
    leb128(624485, &mut out);
    assert_eq!(out, [9, 0xE5, 0x8E, 0x26]);
    let mut small = vec![];
    leb128(127, &mut small);
    assert_eq!(small, [127]);
}

#[test]
fn a_section_holds_its_name() {
    assert_eq!(custom_section("ab"), [0, 3, 2, b'a', b'b']);
    let long = "x".repeat(200);
    let s = custom_section(&long);
    assert_eq!(&s[..5], &[0, 202, 1, 200, 1]);
    assert_eq!(s.len(), 5 + 200);
}

#[test]
fn distinct_artifacts_differ_and_shared_ones_are_written_once() {
    let wasm = [0u8, 1, 2];
    let a = write_inputs(&wasm, 0, true).expect("written");
    let b = write_inputs(&wasm, 1, true).expect("written");
    assert_ne!(a, b);
    assert_eq!(&a[..3], &wasm);
    assert_eq!(write_inputs(&wasm, 0, false), Some(wasm.to_vec()));
    assert_eq!(write_inputs(&wasm, 1, false), None);
}

#[test]
fn an_application_is_written_out() {
    assert_eq!(component(3, true), "gate3");
    assert_eq!(component(3, false), "gate");
    assert_eq!(
        app_spec(3, "gate3"),
        "version: comp/v1\napp: app3\ntenant: t3\nstrategy: fused\ncomponents:\n  - id: gate3\ningress:\n  host: app3.matrix.test\n  component: gate3\n"
    );
    assert_eq!(host(3), "app3.matrix.test");
    assert_eq!(lattice(4, true, false), "mx4distinct0");
    assert_eq!(lattice(4, false, true), "mx4same1");
}

#[test]
fn the_modes_are_both_or_the_one_that_was_asked_for() {
    assert_eq!(modes(&None), Ok(vec![false, true]));
    assert_eq!(modes(&Some("same".to_string())), Ok(vec![false]));
    assert_eq!(modes(&Some("distinct".to_string())), Ok(vec![true]));
    assert_eq!(
        modes(&Some("both".to_string())),
        Err("--only takes `same` or `distinct`, not \"both\"".to_string())
    );
}

#[test]
fn a_loop_says_how_its_latency_came_about() {
    assert_eq!(loop_text(Some(50), true), "OPEN loop at 50 rps offered, through a host directly");
    assert_eq!(
        loop_text(None, false),
        "CLOSED loop (latency == conns/rps by Little's law), through the ingress"
    );
    assert_eq!(door(false), "the ingress");
}

#[test]
fn growth_is_judged_by_its_size_and_its_shape() {
    assert_eq!(drift(5121), "  <- GROWING");
    assert_eq!(drift(5120), "  <- watch");
    assert_eq!(drift(1024), "");
    let grew = |kib: &[i64]| curve(&kib.iter().map(|k| (0, *k)).collect());
    assert_eq!(grew(&[0, 50, 100, 140]).shape, "flattening (allocator settling)");
    assert_eq!(grew(&[0, 50, 100, 180]).shape, "still climbing (a leak, not a warm-up)");
    assert_eq!(grew(&[7, 50, 107, 120, 167]), Curve { first: 100, second: 60, shape: "slowing, but not flat" });
    assert_eq!(grew(&[i64::MIN, i64::MAX]).first, u64::MAX as i128);
    assert_eq!(
        opening_line(12, 20).as_deref(),
        Some("comp-matrix: 12 cell(s), 20s of load each — about 12 minutes\n")
    );
    assert_eq!(opening_line(0, u64::MAX - 39), None);
    assert_eq!(opening_line(u64::MAX, 1), None);
    assert_eq!(grew(&[9]), Curve { first: 0, second: 0, shape: "flattening (allocator settling)" });
}

#[test]
fn a_log_is_searched_for_a_word() {
    assert_eq!(complaints("ok\nrefused a\nok\nrefused b\n", "refused"), ["refused a", "refused b"]);
    assert_eq!(
        diagnosis("heartbeat 1\nx\nheartbeat 2\nheartbeat 3\nheartbeat 4\n", "stop a\nunschedulable b\n"),
        [
            "    diagnosis: host heartbeat complaints=4, reconciler stop commands=1",
            "      host: heartbeat 1",
            "      host: heartbeat 2",
            "      host: heartbeat 3",
            "      reconciler: stop a",
            "      reconciler: unschedulable b",
        ]
    );
    assert_eq!(
        refusals_line(8, &vec![("429".to_string(), 2), ("503".to_string(), 9)]),
        "\n  non-2xx at apps=8: 429x2 503x9"
    );
    assert_eq!(failures_line(3, 8, "reset"), "\n  3 transport failures at apps=8: reset");
}

#[test]
fn a_cell_is_held_against_its_partner() {
    let cells = vec![
        Key { apps: 1, distinct: false, pool: true },
        Key { apps: 1, distinct: true, pool: false },
        Key { apps: 1, distinct: true, pool: true },
    ];
    assert_eq!(partner(&cells, &cells[0]), Some(2));
    assert_eq!(partner(&cells, &cells[1]), None);
    assert_eq!(partner(&cells, &Key { apps: 2, distinct: false, pool: true }), None);
}

#[test]
fn a_report_goes_through_every_cell() {
    let cell = |distinct: bool, idle: &str| Cell {
        key: Key { apps: 8, distinct, pool: true },
        idle: idle.to_string(),
        loaded: "90.1".to_string(),
        per_app: "3.25".to_string(),
        rps: "1200".to_string(),
        p50: "1.00".to_string(),
        p99: "2.00".to_string(),
        p999: "3.00".to_string(),
        shed: 4,
        failed: 0,
        shared: 7,
        disk: 1,
        compiled: 0,
        drift_kib: if distinct { 6000 } else { 10 },
        drift: "+0.01".to_string(),
        statuses: vec![],
        first_refusal: None,
        window: None,
        first_error: None,
        less: "-10.0".to_string(),
        share: "25".to_string(),
    };
    let mut bad = cell(true, "40.0");
    bad.statuses = vec![("503".to_string(), 2)];
    bad.first_refusal = Some("full".to_string());
    bad.window = Some(("1.0".to_string(), "2.5".to_string()));
    bad.failed = 3;
    bad.first_error = Some("reset".to_string());
    let lines = report(&vec![cell(false, "30.0"), bad], Some(500), true, 120, 64);
    assert_eq!(
        lines,
        [
            "\n=== matrix: 120s of load per cell, 64 workers, OPEN loop at 500 rps offered, through a host directly ===\n",
            "   apps   digests  pool │ idle MiB    loaded  per-app │       rps  p50 ms  p99 ms   p99.9 4xx/5xx   err │ shared  disk   cc",
            "      8      same    on │     30.0      90.1     3.25 │      1200    1.00    2.00    3.00       4     0 │      7     1    0",
            "      8  distinct    on │     40.0      90.1     3.25 │      1200    1.00    2.00    3.00       4     3 │      7     1    0",
            "\n  drift after steady state (a leak shows up here, not in a spike):",
            "    apps=8    digests=same      pool=on   +0.01 MiB over 110s",
            "    apps=8    digests=distinct  pool=on   +0.01 MiB over 110s  <- GROWING",
            "\n  non-2xx at apps=8: 503x2",
            "    first said: full",
            "    between 1.0s and 2.5s into the run",
            "\n  3 transport failures at apps=8: reset",
            "\n  what sharing a digest saves, at equal app count:",
            "      8 apps:   30.0 MiB shared vs   40.0 distinct — -10.0 MiB (25% less)",
        ]
    );
}

use comp_tools::clipboard::{tell as clipboard_tell, Look};
use comp_tools::ffmpeg;
use comp_tools::field::print_field;
use comp_tools::fswatch::{self, diff, refused, Change, Event, Watch};
use comp_tools::hopcost;
use comp_tools::imageopt;
use comp_tools::json::{parse, Json};
use comp_tools::lanscan::{hosts_in_cidr, parse_addr, report, scope, Ipv4};
use comp_tools::llmlocal::{completion, generate_url, ollama_request_body, ollama_response_text, tell as llm_tell, Reply};
use comp_tools::mdns::{service_types, tell as mdns_tell, to_service, Service};
use comp_tools::offpeak::verdict;
use comp_tools::park::{announces, function, health, no_route, started as park_started, status, Function};
use comp_tools::path::{join_name, name, parent, split_name, tidy, with_extension};
use comp_tools::planscale::{list, node_address, node_name, world};
use comp_tools::plug::{missing_line, nothing_built, wiring_line};
use comp_tools::scope::{lies_inside, permits, permits_file};

fn texts(v: &[&str]) -> Vec<String> {
    v.iter().map(|s| s.to_string()).collect()
}

fn document(text: &str) -> Json {
    parse(text).expect("a document")
}

fn text_field(j: &Json, key: &str) -> String {
    j.text_field(key).expect("a text").clone()
}

// ------------------------------------------------------------- allow-lists --

#[test]
fn the_parent_of_a_listed_directory_is_not_inside_it() {
    let allowed = texts(&["/tmp/allowed"]);
    let at = |p: &str| permits(Some(&p.to_string()), &allowed);
    assert!(at("/tmp/allowed"));
    assert!(at("/tmp/allowed/deep/er"));
    assert!(!at("/tmp"));
    assert!(!at("/tmp/allowed-not"));
    assert!(!at("/etc"));
    assert!(!permits(None, &allowed));
    assert!(!lies_inside("tmp/allowed", "/tmp/allowed"));
}

#[test]
fn an_empty_list_permits_nothing() {
    assert!(!permits(Some(&"/".to_string()), &texts(&[])));
    assert!(permits_file(Some(&"/tmp".to_string()), "x", &texts(&[])).is_none());
}

#[test]
fn a_file_is_placed_in_its_resolved_directory() {
    let allowed = texts(&["/tmp/in"]);
    assert_eq!(
        permits_file(Some(&"/tmp/in".to_string()), "never-written.avi", &allowed),
        Some("/tmp/in/never-written.avi".to_string())
    );
    assert_eq!(permits_file(Some(&"/tmp".to_string()), "sibling.avi", &allowed), None);
    assert_eq!(permits_file(None, "x", &allowed), None);
    assert_eq!(permits_file(Some(&"/".to_string()), "x", &texts(&["/"])), Some("/x".to_string()));
}

#[test]
fn paths_are_taken_apart_and_put_together() {
    assert_eq!(name("/x/y/clip.mov"), Some("clip.mov".to_string()));
    assert_eq!(name("/x/y/./"), Some("y".to_string()));
    assert_eq!(name("/x/.."), None);
    assert_eq!(name("."), None);
    assert_eq!(parent("/x//y"), "/x");
    assert_eq!(parent("/x"), "/");
    assert_eq!(parent("x"), "");
    assert_eq!(split_name(".hidden"), (".hidden".to_string(), None));
    assert_eq!(split_name("a.b.c"), ("a.b".to_string(), Some("c".to_string())));
    assert_eq!(with_extension("/x/..", "mp4"), "/x/..");
    assert_eq!(with_extension("/x/a.b/", "mp4"), "/x/a.mp4");
    assert_eq!(join_name("", "a"), "a");
    assert_eq!(join_name("/", "a"), "/a");
}

// ------------------------------------------------------------------ ffmpeg --

#[test]
fn the_output_path_swaps_the_extension_to_mp4() {
    assert_eq!(ffmpeg::output_path("/x/y/clip.mov"), "/x/y/clip.mp4");
    assert_eq!(ffmpeg::output_path("/x/y/clip"), "/x/y/clip.mp4");
    assert_eq!(ffmpeg::output_path("clip.webm"), "clip.mp4");
}

#[test]
fn a_transcode_is_answered_by_what_became_of_it() {
    assert_eq!(ffmpeg::arguments("a.mov", "a.mp4"), ["-y", "-i", "a.mov", "a.mp4"]);
    let tell = |run| ffmpeg::answer("/r", "/o.mp4", run);
    assert_eq!(text_field(&tell(ffmpeg::Run::NotPermitted), "error"), "not-permitted");
    assert_eq!(text_field(&tell(ffmpeg::Run::NotPermitted), "detail"), "/r");
    assert_eq!(text_field(&tell(ffmpeg::Run::Missing), "error"), "no-such-file");
    assert_eq!(text_field(&tell(ffmpeg::Run::Missing), "detail"), "/r");
    assert_eq!(text_field(&tell(ffmpeg::Run::NotStarted("no such program")), "detail"), "failed to run ffmpeg: no such program");
    let ended = |ok, written| tell(ffmpeg::Run::Ended { ok, status: "exit status: 1", written });
    assert_eq!(text_field(&ended(true, true), "output"), "/o.mp4");
    assert_eq!(text_field(&ended(true, false), "detail"), "ffmpeg exited exit status: 1");
    assert_eq!(text_field(&ended(false, true), "error"), "unavailable");
}

// ---------------------------------------------------------------- imageopt --

#[test]
fn the_output_name_inserts_opt_before_the_extension() {
    assert_eq!(imageopt::output_path("/x/y/photo.jpg"), "/x/y/photo.opt.jpg");
    assert_eq!(imageopt::output_path("/a/no-ext"), "/a/no-ext.opt");
}

#[test]
fn an_image_is_judged_by_its_name_and_width() {
    assert!(imageopt::is_jpeg("/x/a.JPG"));
    assert!(imageopt::is_jpeg("a.jpeg"));
    assert!(!imageopt::is_jpeg("a.png"));
    assert!(!imageopt::is_jpeg("jpg"));
    assert!(imageopt::too_wide(1601, 1600));
    assert!(!imageopt::too_wide(1600, 1600));
    let tell = |w| imageopt::answer("/r", "/o", w);
    assert_eq!(text_field(&tell(imageopt::Work::NotPermitted), "error"), "not-permitted");
    assert_eq!(text_field(&tell(imageopt::Work::Missing), "error"), "no-such-file");
    assert_eq!(text_field(&tell(imageopt::Work::Failed("bad")), "detail"), "bad");
    assert_eq!(text_field(&tell(imageopt::Work::Done), "output"), "/o");
}

// ----------------------------------------------------------------- fswatch --

fn look(entries: &[(&str, u64, u64)]) -> fswatch::Look {
    let mut l = fswatch::Look::new();
    for (p, t, n) in entries {
        l.note(p.to_string(), *t, *n);
    }
    l
}

fn event(path: &str, kind: Change) -> Event {
    Event { path: path.to_string(), kind }
}

#[test]
fn two_looks_differ_by_what_changed() {
    let a = look(&[("/d/stays", 1, 4), ("/d/goes", 1, 3), ("/d/same", 1, 1)]);
    let b = look(&[("/d/stays", 1, 12), ("/d/arrives", 2, 3), ("/d/same", 1, 1)]);
    assert_eq!(
        diff(&a, &b),
        vec![
            event("/d/arrives", Change::Created),
            event("/d/goes", Change::Removed),
            event("/d/stays", Change::Modified),
        ]
    );
    assert!(diff(&a, &a).is_empty());
}

#[test]
fn a_first_look_reports_nothing_and_a_page_is_cut() {
    let mut w = Watch::new(1);
    let first = w.poll("/d", look(&[("/d/a", 1, 1)]), "5", 10);
    assert_eq!(first.field("events"), Some(&Json::List(vec![])));
    assert_eq!(text_field(&first, "cursor"), "10");
    assert_eq!(first.field("truncated").and_then(|t| t.truth()), Some(false));
    let silent = w.poll("/d", look(&[]), "", 11);
    assert_eq!(silent.field("events").and_then(|e| e.list()).map(|l| l.len()), Some(0));
    let more = w.poll("/d", look(&[("/d/b", 1, 1), ("/d/c", 1, 1)]), "11", 12);
    let events = more.field("events").and_then(|e| e.list()).expect("a list");
    assert_eq!(events.len(), 1);
    assert_eq!(text_field(&events[0], "path"), "/d/b");
    assert_eq!(text_field(&events[0], "kind"), "created");
    assert_eq!(more.field("truncated").and_then(|t| t.truth()), Some(true));
    assert_eq!(text_field(&refused("/x", true), "error"), "no-such-directory");
    assert_eq!(text_field(&refused("/x", false), "error"), "not-permitted");
}

fn kinds(answer: &Json) -> Vec<(String, String)> {
    let events = answer.field("events").and_then(|e| e.list()).expect("a list");
    events.iter().map(|e| (text_field(e, "path"), text_field(e, "kind"))).collect()
}

fn told(path: &str, kind: &str) -> (String, String) {
    (path.to_string(), kind.to_string())
}

#[test]
fn a_directory_is_one_whatever_slashes_it_is_asked_for_with() {
    for other in ["x/", "x//", "x/.", "x/./"] {
        let mut w = Watch::new(9);
        w.poll("x", look(&[("x/old", 1, 1), ("x/same", 1, 1)]), "", 1);
        let at = |name: &str| {
            let dir = if other.ends_with('/') { other.to_string() } else { format!("{other}/") };
            format!("{dir}{name}")
        };
        let fresh = look(&[(&at("new"), 2, 2), (&at("same"), 1, 1)]);
        let answer = w.poll(other, fresh, "1", 2);
        let mut want = vec![told(&at("new"), "created"), told("x/old", "removed")];
        want.sort();
        assert_eq!(kinds(&answer), want, "{other}");
    }
    for other in ["./x", "/x", "x/../x", "y"] {
        let mut w = Watch::new(9);
        w.poll("x", look(&[]), "", 1);
        let answer = w.poll(other, look(&[("x/new", 2, 2)]), "1", 2);
        assert!(kinds(&answer).is_empty(), "{other}");
    }
}

#[test]
fn a_changed_entry_is_shown_as_the_later_look_saw_it() {
    let a = look(&[("x/f", 1, 1), ("x/g", 1, 1)]);
    let b = look(&[("x//f", 1, 2), ("x/./g", 1, 1)]);
    assert_eq!(diff(&a, &b), vec![event("x//f", Change::Modified)]);
    assert_eq!(diff(&b, &look(&[])), vec![event("x/./g", Change::Removed), event("x//f", Change::Removed)]);
    let twice = look(&[("x/f", 1, 1), ("x//f", 3, 4)]);
    assert_eq!(diff(&look(&[]), &twice), vec![event("x/f", Change::Created)]);
    assert_eq!(diff(&look(&[("x/f", 3, 4)]), &twice), vec![]);
}

#[test]
fn a_path_is_its_components() {
    assert_eq!(tidy("x/"), "x");
    assert_eq!(tidy("x//y/./z/."), "x/y/z");
    assert_eq!(tidy("//x"), "/x");
    assert_eq!(tidy("./x/"), "./x");
    assert_eq!(tidy("././x"), "./x");
    assert_eq!(tidy("a/../b"), "a/../b");
    assert_eq!(tidy("/"), "/");
    assert_eq!(tidy("."), ".");
    assert_eq!(tidy(""), "");
    let texts = ["", ".", "./", "/", "//", "/.", "x", "x/", "x/.", "./x", "/x", "//x/", "x/y", "x//y", "..", "../", "x/..", ".x"];
    for a in texts {
        for b in texts {
            assert_eq!(tidy(a) == tidy(b), std::path::Path::new(a) == std::path::Path::new(b), "{a} {b}");
        }
    }
}

// ----------------------------------------------------------------- lanscan --

#[test]
fn a_slash_24_enumerates_its_256_addresses() {
    let hosts = hosts_in_cidr("192.168.1.0/24").expect("parses");
    assert_eq!(hosts.len(), 256);
    assert_eq!(hosts[0], Ipv4::new(192, 168, 1, 0));
    assert_eq!(hosts[255], Ipv4::new(192, 168, 1, 255));
}

#[test]
fn a_slash_32_is_a_single_host() {
    let hosts = hosts_in_cidr("10.0.0.5/32").expect("parses");
    assert_eq!(hosts, vec![Ipv4::new(10, 0, 0, 5)]);
}

#[test]
fn a_cidr_broader_than_slash_24_is_refused() {
    assert!(hosts_in_cidr("10.0.0.0/16").is_none());
    assert!(hosts_in_cidr("not-a-cidr").is_none());
    assert!(hosts_in_cidr("10.0.0.0").is_none());
}

#[test]
fn a_range_starts_where_its_network_does() {
    let hosts = hosts_in_cidr("10.0.0.77/28").expect("parses");
    assert_eq!(hosts.len(), 16);
    assert_eq!(hosts[0].text(), "10.0.0.64");
    assert_eq!(hosts[15].text(), "10.0.0.79");
    assert!(hosts_in_cidr("10.0.0.0/33").is_none());
    assert_eq!(parse_addr("1.2.3.4"), Some(Ipv4::new(1, 2, 3, 4)));
    for bad in ["1.2.3", "1.2.3.4.5", "01.2.3.4", "256.1.1.1", "1.2.3.", "+1.2.3.4", "1.2.3.a"] {
        assert_eq!(parse_addr(bad), None, "{bad}");
    }
}

#[test]
fn a_scan_reports_on_its_scope() {
    let (hosts, ignored) = scope(&texts(&["10.0.0.5/32", "10.0.0.0/8", "10.0.1.0/31"]));
    assert_eq!(hosts.len(), 3);
    assert_eq!(ignored, ["10.0.0.0/8"]);
    assert_eq!(text_field(&report(&vec![]), "detail"), "no --allow-cidr configured");
    let j = report(&vec![(Ipv4::new(10, 0, 0, 5), true)]);
    let out = j.field("hosts").and_then(|h| h.list()).expect("a list");
    assert_eq!(text_field(&out[0], "ip"), "10.0.0.5");
    assert_eq!(out[0].field("reachable").and_then(|r| r.truth()), Some(true));
}

// ---------------------------------------------------------------- llmlocal --

#[test]
fn the_request_body_carries_the_model_and_prompt_without_streaming() {
    let body = ollama_request_body("llama3.2", "hello");
    assert_eq!(text_field(&body, "model"), "llama3.2");
    assert_eq!(text_field(&body, "prompt"), "hello");
    assert_eq!(body.field("stream").and_then(|s| s.truth()), Some(false));
}

#[test]
fn a_response_field_is_read_out_of_ollamas_reply() {
    let body = r#"{"model":"llama3.2","response":"hi there","done":true}"#;
    assert_eq!(ollama_response_text(body), Some("hi there".to_string()));
}

#[test]
fn a_reply_with_no_response_field_is_no_answer() {
    assert_eq!(ollama_response_text(r#"{"done":true}"#), None);
    assert_eq!(ollama_response_text("not json"), None);
}

#[test]
fn a_prompt_is_answered_by_what_the_server_said() {
    assert_eq!(generate_url("http://127.0.0.1:11434/"), "http://127.0.0.1:11434/api/generate");
    assert_eq!(completion(&document(r#"{"response":3}"#)), None);
    assert_eq!(text_field(&llm_tell(Reply::Failed("down")), "detail"), "down");
    assert_eq!(text_field(&llm_tell(Reply::Status("404 Not Found")), "detail"), "ollama returned 404 Not Found");
    assert_eq!(text_field(&llm_tell(Reply::Body("{}")), "detail"), "ollama reply had no response field");
    assert_eq!(text_field(&llm_tell(Reply::Body(r#"{"response":"yes"}"#)), "response"), "yes");
}

// -------------------------------------------------------------------- mdns --

#[test]
fn no_service_type_given_defaults_to_http() {
    assert_eq!(service_types(&vec![]), vec!["_http._tcp.local."]);
}

#[test]
fn an_explicit_service_type_replaces_the_default() {
    let given = vec!["_ipp._tcp.local.".to_string()];
    assert_eq!(service_types(&given), given);
}

#[test]
fn services_are_told_flat() {
    let s = Service { name: "p._ipp._tcp.local.".into(), host: "p.local.".into(), port: 631 };
    let j = to_service(&s);
    assert_eq!(text_field(&j, "name"), "p._ipp._tcp.local.");
    assert_eq!(text_field(&j, "host"), "p.local.");
    assert_eq!(j.field("port").and_then(|p| p.number()), Some(631));
    let all = mdns_tell(&vec![s], None);
    assert_eq!(all.field("services").and_then(|l| l.list()).map(|l| l.len()), Some(1));
    let none = mdns_tell(&vec![], None);
    assert_eq!(none.field("services").and_then(|l| l.list()).map(|l| l.len()), Some(0));
    assert_eq!(text_field(&mdns_tell(&vec![], Some(&"no socket".to_string())), "detail"), "no socket");
}

// --------------------------------------------------------------- clipboard --

#[test]
fn the_three_reply_shapes_are_well_formed_json() {
    let ok = clipboard_tell(Look::Text("hello"));
    assert_eq!(text_field(&ok, "text"), "hello");

    let empty = clipboard_tell(Look::Empty);
    assert_eq!(text_field(&empty, "error"), "empty");
    assert!(empty.field("detail").is_none());

    let down = clipboard_tell(Look::Unavailable("no desktop session"));
    assert_eq!(text_field(&down, "error"), "unavailable");
    assert_eq!(text_field(&down, "detail"), "no desktop session");
}

// ------------------------------------------------------------------- field --

#[test]
fn a_field_is_printed_as_a_shell_compares_it() {
    let d = r#"{"id":"x","n":3,"neg":-4,"f":1.5,"ok":true,"none":null,"o":{"b":[1,"two\n",{"k":null}]},"a":["p",2,null]}"#;
    let one = |key| print_field(d, key, false);
    assert_eq!(one("id"), ["x"]);
    assert_eq!(one("n"), ["3"]);
    assert_eq!(one("neg"), ["-4"]);
    assert_eq!(one("f"), ["1.5"]);
    assert_eq!(one("ok"), ["true"]);
    assert_eq!(one("none"), [""]);
    assert_eq!(one("o.b"), ["[1,\"two\\n\",{\"k\":null}]"]);
    assert_eq!(one("o"), ["{\"b\":[1,\"two\\n\",{\"k\":null}]}"]);
    assert_eq!(one("missing"), [""]);
    assert_eq!(one("id.deeper"), [""]);
    assert_eq!(print_field("not json", "id", false), [""]);
    assert_eq!(print_field(d, "a", true), ["p", "2", ""]);
    assert_eq!(print_field(d, "id", true), texts(&[]));
    assert_eq!(print_field("[1]", "a", true), [""]);
}

// --------------------------------------------------------------- planscale --

#[test]
fn sizes_are_read_from_the_options() {
    let args = texts(&["prog", "--nodes", "10, 100", "--apps", "x"]);
    assert_eq!(list(&args, "--nodes", &vec![1]), Some(vec![10, 100]));
    assert_eq!(list(&args, "--apps", &vec![1]), None);
    assert_eq!(list(&args, "--other", &vec![1, 2]), Some(vec![1, 2]));
    assert_eq!(list(&texts(&["--nodes"]), "--nodes", &vec![1]), None);
}

#[test]
fn a_world_is_converged() {
    let w = world(3, 25);
    assert_eq!(w.apps.len(), 25);
    assert_eq!(w.apps[7].app, "app7");
    assert_eq!(w.apps[7].tenant, "org1");
    assert_eq!(w.apps[7].host, "app7.example.com");
    assert_eq!(w.apps[7].digest, format!("sha256:{:064x}", 7));
    assert_eq!(w.nodes[0], (0..50usize).filter(|k| k % 3 == 0).map(|k| k / 2).collect::<Vec<_>>());
    assert_eq!(w.nodes.iter().map(|n| n.len()).sum::<usize>(), 50);
    assert_eq!(world(1, 4).apps[3].tenant, "org0");
    assert_eq!(world(2, 60).apps[51].digest, format!("sha256:{:064x}", 1));
    assert_eq!(node_name(4), "n4");
    assert_eq!(node_address(251), "10.0.0.1:8080");
}

// -------------------------------------------------------------------- park --

#[test]
fn a_request_names_its_function() {
    assert_eq!(function("park"), Some(Function::Park));
    assert_eq!(function("wake"), Some(Function::Wake));
    assert_eq!(function("pending"), Some(Function::Pending));
    assert_eq!(function("take-ready"), Some(Function::TakeReady));
    assert_eq!(function("cancel"), Some(Function::Cancel));
    assert_eq!(function("oplog"), Some(Function::Oplog));
    assert_eq!(function("takeready"), None);
    assert_eq!(no_route("x"), "no such route: x");
    assert!(announces(true, true));
    assert!(!announces(false, true));
    assert!(!announces(true, false));
    assert_eq!(status(404), 404);
    assert_eq!(status(99), 500);
    assert_eq!(status(1000), 500);
}

#[test]
fn a_service_tells_where_it_keeps_its_records() {
    let live = health(true, true, "b", "s");
    assert_eq!(text_field(&live, "backend"), "nats");
    assert_eq!(text_field(&live, "wake-stream"), "s");
    let memory = health(false, false, "b", "s");
    assert_eq!(text_field(&memory, "backend"), "memory");
    assert_eq!(memory.field("wake-stream"), Some(&Json::Null));
    assert_eq!(memory.field("ok").and_then(|o| o.truth()), Some(false));
    assert_eq!(
        park_started("127.0.0.1:8015", true, "nats://x", "b", "s"),
        "comp-park: listening on http://127.0.0.1:8015 | memory | bucket b | wake stream s"
    );
}

// ----------------------------------------------------------------- hopcost --

#[test]
fn an_arm_must_be_what_it_claims() {
    let web = "started alice/split/gate";
    let far = "started alice/split/shaper";
    assert_eq!(
        hopcost::arm("split", "fixtures/split-graph.yaml", web, far),
        Ok("    split      gate on n1, shaper on n2 (over wrpc)".to_string())
    );
    assert_eq!(
        hopcost::arm("co-located", "fixtures/colocated-graph.yaml", web, ""),
        Ok("    co-located gate on n1, shaper on n1 (in process)".to_string())
    );
    let e = hopcost::arm("split", "fixtures/split-graph.yaml", web, "").unwrap_err();
    assert!(e.starts_with("split: shaper is on the web node"), "{e}");
    assert_eq!(
        hopcost::arm("split", "fixtures/split-graph.yaml", "", far),
        Err("split: gate is not on the web node".to_string())
    );
    assert_eq!(text_field(&hopcost::request(2, 9), "key"), "k-2-9");
}

// ---------------------------------------------------------- offpeak, plug --

#[test]
fn a_verdict_is_a_word_and_a_code() {
    assert_eq!(verdict(true, false, 7), ("off-peak".to_string(), 0));
    assert_eq!(verdict(false, false, 7), ("peak".to_string(), 1));
    assert_eq!(verdict(true, true, 7).0, "comp-offpeak: unix_secs=7 off_peak=true");
}

#[test]
fn a_composition_tells_what_is_missing() {
    assert_eq!(nothing_built(&texts(&["a", "b"])), "no built components under a, b — run `just build`");
    assert_eq!(missing_line("n", "i"), "  ! nothing built exports i (imported by n)");
    assert_eq!(wiring_line("c", &texts(&["x", "y"])), "c plugs: x, y");
}

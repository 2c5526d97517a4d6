use comp_tools::mailrelay::{announced, data, esc, hear, json_first_of_array, json_str, message_id, outcome, read_mail, receive, reply, say, Mail, Received, Talk};

fn mail(text: &str) -> Mail {
    Mail { from: "a@x".to_string(), to: "b@x".to_string(), subject: "hi".to_string(), text: text.to_string() }
}

#[test]
fn texts_are_read_out_of_a_body() {
    let body = r#"{ "from" : "a@x", "to":[ "b@x", "c@x"], "text":"one\ntwo \"q\" \\ \u" }"#;
    assert_eq!(json_str(body, "from"), Some("a@x".to_string()));
    assert_eq!(json_first_of_array(body, "to"), Some("b@x".to_string()));
    assert_eq!(json_str(body, "text"), Some("one\ntwo \"q\" \\ u".to_string()));
    assert_eq!(json_str(body, "subject"), None);
    assert_eq!(json_str(r#"{"from":"open"#, "from"), None);
    assert_eq!(json_str(r#"{"from":3}"#, "from"), None);
    assert_eq!(json_first_of_array(r#"{"to":"b@x"}"#, "to"), None);
}

#[test]
fn an_escape_by_number_is_undone() {
    assert_eq!(json_str(r#"{"k":"\u0041"}"#, "k"), Some("A".to_string()));
    assert_eq!(json_str(r#"{"k":"\u00e9\u00E9"}"#, "k"), Some("\u{e9}\u{e9}".to_string()));
    assert_eq!(json_str(r#"{"k":"x\ud83d\ude00y"}"#, "k"), Some("x\u{1f600}y".to_string()));
    assert_eq!(json_str(r#"{"k":"\uffff"}"#, "k"), Some("\u{ffff}".to_string()));
    assert_eq!(json_str(r#"{"k":"\b\f\/"}"#, "k"), Some("\u{8}\u{c}/".to_string()));
    // A half alone, two halves in the wrong order, and too few digits.
    assert_eq!(json_str(r#"{"k":"\ud83dx"}"#, "k"), Some("ud83dx".to_string()));
    assert_eq!(json_str(r#"{"k":"\ude00\ud83d"}"#, "k"), Some("ude00ud83d".to_string()));
    assert_eq!(json_str(r#"{"k":"\ud83d\u0041"}"#, "k"), Some("ud83dA".to_string()));
    assert_eq!(json_str(r#"{"k":"\u00g1"}"#, "k"), Some("u00g1".to_string()));
    assert_eq!(json_str(r#"{"k":"\u00"}"#, "k"), Some("u00".to_string()));
    assert_eq!(json_str(r#"{"k":"\u0041"#, "k"), None);
}

#[test]
fn an_escaped_text_reads_back() {
    for s in ["", "plain", "say \"no\"", "back\\slash\\", "\\u0041", "tab\there"] {
        let body = format!("{{\"k\": \"{}\"}}", esc(s));
        assert_eq!(json_str(&body, "k"), Some(s.to_string()));
    }
}

#[test]
fn a_message_needs_both_ends() {
    let m = read_mail(r#"{"from":"a","to":"b","body":"t"}"#).expect("a message");
    assert_eq!(m, Mail { from: "a".into(), to: "b".into(), subject: "".into(), text: "t".into() });
    assert!(read_mail(r#"{"from":"a"}"#).is_none());
    assert!(read_mail(r#"{"from":"","to":["b"]}"#).is_none());
}

#[test]
fn a_request_is_read_to_its_end() {
    let smtp = "127.0.0.1:1025";
    let body = r#"{"from":"a","to":["b"],"text":"t"}"#;
    let head = format!("POST / HTTP/1.1\r\nContent-Length : {}\r\n\r\n", body.len());
    assert_eq!(announced(&head), body.len());
    assert_eq!(receive(&b"POST / HTT".to_vec(), false, smtp), Received::More);
    assert_eq!(receive(&b"POST / HTT".to_vec(), true, smtp), Received::Close);
    assert_eq!(receive(&head.clone().into_bytes(), false, smtp), Received::More);
    let all = format!("{head}{body}").into_bytes();
    let want = Mail { from: "a".into(), to: "b".into(), subject: "".into(), text: "t".into() };
    assert_eq!(receive(&all, false, smtp), Received::Send(want));
    assert_eq!(
        receive(&head.into_bytes(), true, smtp),
        Received::Answer(422, r#"{"error":"from and to are required"}"#.to_string())
    );
    assert_eq!(
        receive(&b"GET / HTTP/1.1\r\n\r\n".to_vec(), false, smtp),
        Received::Answer(200, r#"{"relay":"mail","smtp":"127.0.0.1:1025"}"#.to_string())
    );
    assert_eq!(
        receive(&vec![b'x'; (1 << 20) + 1], false, smtp),
        Received::Answer(431, r#"{"error":"header too large"}"#.to_string())
    );
    assert_eq!(receive(&vec![b'x'; 1 << 20], false, smtp), Received::More);
}

#[test]
fn a_relay_reply_counts_its_bytes() {
    assert_eq!(
        reply(201, "{\"id\":\"é\"}"),
        "HTTP/1.1 201 OK\r\ncontent-type: application/json\r\ncontent-length: 11\r\nconnection: close\r\n\r\n{\"id\":\"é\"}"
    );
    assert!(reply(422, "").starts_with("HTTP/1.1 422 Error\r\n"));
}

#[test]
fn an_outcome_tells_the_id_or_the_reason() {
    let id = message_id(12, 345);
    assert_eq!(id, "12.345@relay.local");
    assert_eq!(message_id(0, u128::MAX), format!("0.{}@relay.local", u128::MAX));
    assert_eq!(outcome(None, &id), (201, r#"{"id":"12.345@relay.local"}"#.to_string()));
    assert_eq!(
        outcome(Some(&"say \"no\"\nnow\\".to_string()), &id),
        (502, "{\"error\":\"smtp: say \\\"no\\\" now\\\\\"}".to_string())
    );
    assert_eq!(esc("plain"), "plain");
}

#[test]
fn a_leading_dot_is_doubled() {
    assert_eq!(
        data(&mail("hello\r\n.\n..x"), "7@relay.local"),
        "From: a@x\r\nTo: b@x\r\nSubject: hi\r\nMessage-ID: <7@relay.local>\r\nContent-Type: text/plain; charset=utf-8\r\n\r\nhello\r\n..\r\n...x\r\n.\r\n"
    );
}

#[test]
fn a_session_says_its_steps() {
    let m = mail("t");
    assert_eq!(say(&m, "i", 0), "");
    assert_eq!(say(&m, "i", 1), "EHLO holon\r\n");
    assert_eq!(say(&m, "i", 2), "MAIL FROM:<a@x>\r\n");
    assert_eq!(say(&m, "i", 3), "RCPT TO:<b@x>\r\n");
    assert_eq!(say(&m, "i", 4), "DATA\r\n");
    assert_eq!(say(&m, "i", 5), data(&m, "i"));
}

#[test]
fn only_a_session_accepted_throughout_delivers() {
    let mut t = Talk::Waiting(0);
    for line in ["220 hi\r\n", "250-one\r\n", "250 two\r\n", "250 ok\r\n", "250 ok\r\n", "354 go\r\n"] {
        t = hear(t, line);
    }
    assert_eq!(t, Talk::Waiting(5));
    assert_eq!(hear(Talk::Waiting(5), "250 taken\r\n"), Talk::Delivered);
    assert_eq!(hear(t, "550 no\r\n"), Talk::Refused("end of DATA: 550 no".to_string()));
    assert_eq!(hear(Talk::Waiting(1), ""), Talk::Refused("EHLO: connection closed".to_string()));
    assert_eq!(hear(Talk::Delivered, "550 no\r\n"), Talk::Delivered);
}

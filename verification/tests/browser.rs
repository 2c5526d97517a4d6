use comp_tools::browser::{clip, host_of, Daemon, MAX_CONTENT_BYTES};

fn daemon(allow: &[&str]) -> Daemon {
    Daemon { allowed: allow.iter().map(|s| s.to_string()).collect() }
}

#[test]
fn a_url_host_is_extracted_without_its_scheme_port_or_path() {
    assert_eq!(host_of("https://example.com/a/b"), Some("example.com".into()));
    assert_eq!(host_of("http://example.com:8080/x"), Some("example.com".into()));
    assert_eq!(host_of("https://EXAMPLE.com"), Some("example.com".into()));
    assert_eq!(host_of("not-a-url"), None);
}

#[test]
fn a_lookalike_host_cannot_pass_as_an_allowed_one() {
    let d = daemon(&["example.com"]);
    assert!(d.permits("example.com"), "the listed host itself");
    assert!(d.permits("www.example.com"), "a real subdomain");
    assert!(!d.permits("example.com.evil.com"), "a host that merely ends in the allowed bytes");
    assert!(!d.permits("evil-example.com"), "a host with the allowed name as a suffix of a longer label");
    assert!(!d.permits("evil.com"), "an unrelated host");
}

#[test]
fn an_unscoped_daemon_permits_nothing() {
    let d = daemon(&[]);
    assert!(!d.permits("example.com"));
}

#[test]
fn a_user_before_the_host_is_not_the_host() {
    assert_eq!(host_of("https://example.com@evil.test/x"), Some("evil.test".into()));
    assert_eq!(host_of("https:///x"), None);
}

#[test]
fn an_authority_ends_at_the_path_the_query_or_the_fragment() {
    assert_eq!(host_of("https://evil.com?@example.com/"), Some("evil.com".into()));
    assert_eq!(host_of("https://evil.com#@example.com/"), Some("evil.com".into()));
    assert_eq!(host_of("https://evil.com/?@example.com"), Some("evil.com".into()));
    assert_eq!(host_of("http://u:p@evil.com:80?x#y"), Some("evil.com".into()));
    assert_eq!(host_of("https://?x"), None);
    let d = daemon(&["example.com"]);
    assert!(d.host_to_visit("https://evil.com?@example.com/").is_err());
}

#[test]
fn a_refusal_says_why() {
    let d = daemon(&["Example.com"]);
    assert_eq!(d.host_to_visit("http://www.EXAMPLE.com/"), Ok("www.example.com".to_string()));
    let e = d.host_to_visit("ftp://x").unwrap_err();
    assert_eq!(e.text_field("error").map(String::as_str), Some("unavailable"));
    let e = d.host_to_visit("http://x").unwrap_err();
    assert_eq!(e.text_field("error").map(String::as_str), Some("not-permitted"));
    assert_eq!(e.text_field("detail").map(String::as_str), Some("x"));
}

#[test]
fn a_long_page_is_cut_at_the_ceiling() {
    let page = "a".repeat(MAX_CONTENT_BYTES + 5);
    assert_eq!(clip(&page).len(), MAX_CONTENT_BYTES);
    assert_eq!(clip("short"), "short");
}

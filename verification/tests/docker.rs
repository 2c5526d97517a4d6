use comp_tools::docker::{container_json, primary_name, short_id, Container};

#[test]
fn a_full_id_is_truncated_to_the_short_form() {
    assert_eq!(short_id("abc123def4567890abcdef"), "abc123def456");
}

#[test]
fn a_short_id_is_left_alone() {
    assert_eq!(short_id("abc123"), "abc123");
}

#[test]
fn the_leading_slash_is_stripped_from_the_first_name() {
    assert_eq!(primary_name(&vec!["/web".to_string()]), "web");
    assert_eq!(primary_name(&vec!["/web".to_string(), "/web-alias".to_string()]), "web");
}

#[test]
fn no_names_is_reported_as_empty_rather_than_panicking() {
    assert_eq!(primary_name(&vec![]), "");
}

#[test]
fn a_container_is_listed_with_what_is_known_of_it() {
    let c = Container { id: Some("abc123def4567890".into()), names: vec!["/db".into()], image: None, status: Some("Up".into()) };
    let j = container_json(&c);
    assert_eq!(j.text_field("id").map(String::as_str), Some("abc123def456"));
    assert_eq!(j.text_field("image").map(String::as_str), Some(""));
    assert_eq!(j.text_field("status").map(String::as_str), Some("Up"));
    assert_eq!(j.text_field("name").map(String::as_str), Some("db"));
}

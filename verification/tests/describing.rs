use feed_notify::describe::{build_description, notification_for};
use feed_notify::Entry;

fn rules(pairs: &[(&str, &str)]) -> Vec<(String, String)> {
    pairs.iter().map(|(s, r)| (s.to_string(), r.to_string())).collect()
}

#[test]
fn plain_description_gets_rules_applied() {
    let out = build_description(&Some("hello world".to_string()), false, &rules(&[("world", "there")]));
    assert_eq!(out, "hello there");
}

#[test]
fn missing_description_falls_back_to_unknown() {
    let out = build_description(&None, false, &rules(&[]));
    assert_eq!(out, "Unknown");
}

#[test]
fn html_description_is_converted_to_markdown() {
    let out = build_description(&Some("<h1>Title</h1>".to_string()), true, &rules(&[]));
    assert!(!out.contains("<h1>"));
    assert!(out.contains("Title"));
}

#[test]
fn notification_falls_back_for_absent_fields() {
    let e = Entry { link: None, title: None, description: None };
    let n = notification_for(&e, false, &rules(&[]));
    assert_eq!(n.title, "Unknown");
    assert_eq!(n.body, "Unknown");
    assert_eq!(n.link, "https://youtu.be/dQw4w9WgXcQ");
}

#[test]
fn notification_keeps_present_fields() {
    let e = Entry {
        link: Some("https://example.org/post".to_string()),
        title: Some("A post".to_string()),
        description: Some("the body".to_string()),
    };
    let n = notification_for(&e, false, &rules(&[("body", "text")]));
    assert_eq!(n.title, "A post");
    assert_eq!(n.body, "the text");
    assert_eq!(n.link, "https://example.org/post");
}

#[test]
fn html_conversion_happens_before_rules() {
    let out = build_description(
        &Some("<p>good news</p>".to_string()),
        true,
        &rules(&[("good", "great")]),
    );
    assert!(out.contains("great news"));
}

use rfi::markdown::{parse_markdown, MdEvent};
use rfi::rfc::{Issue, Rfc};

fn issue(owner: &str, repo: &str, number: u32) -> Issue {
    Issue { owner: owner.to_string(), repo: repo.to_string(), number }
}

const TEMPLATE: &str = "# Title

- Feature Name: foo
- Start Date: 2014-01-01
- RFC PR: [rust-lang/rfcs#1](https://github.com/rust-lang/rfcs/pull/1)
- Rust Issue: [rust-lang/rust#1234](https://github.com/rust-lang/rust/issues/1234)

# Summary

https://github.com/x/y/issues/9
";

#[test]
fn parser_events_are_reduced() {
    let events = parse_markdown("# H\n\ntext [a](https://example.com/x)\n");
    assert_eq!(events[0], MdEvent::HeaderStart);
    assert!(events.contains(&MdEvent::Text("text ".to_string())));
    assert!(events.contains(&MdEvent::LinkStart("https://example.com/x".to_string())));
}

#[test]
fn tracking_section_is_between_marker_and_next_header() {
    assert_eq!(Rfc::parse_issues(TEMPLATE), Some(vec![issue("rust-lang", "rust", 1234)]));
}

#[test]
fn links_in_plain_text_of_the_section_count() {
    let md = "- Rust Issue: https://github.com/rust-lang/rust/issues/5 and https://github.com/a/b/pull/6\n";
    assert_eq!(
        Rfc::parse_issues(md),
        Some(vec![issue("rust-lang", "rust", 5), issue("a", "b", 6)])
    );
}

#[test]
fn marker_ignores_case() {
    let md = "rust issue: https://github.com/a/b/issues/1\n";
    assert_eq!(Rfc::parse_issues(md), Some(vec![issue("a", "b", 1)]));
    let md = "RU\u{17f}T ISSUE https://github.com/a/b/issues/2\n";
    assert_eq!(Rfc::parse_issues(md), Some(vec![issue("a", "b", 2)]));
}

#[test]
fn without_marker_there_is_no_section() {
    let md = "# Summary\n\nhttps://github.com/a/b/issues/1\n";
    assert_eq!(Rfc::parse_issues(md), Some(vec![]));
    assert_eq!(Rfc::parse_issues(""), Some(vec![]));
}

#[test]
fn marker_must_start_the_text() {
    let md = "Tracking Rust Issue: https://github.com/a/b/issues/1\n";
    assert_eq!(Rfc::parse_issues(md), Some(vec![]));
}

#[test]
fn events_are_read_from_the_marker_to_the_next_header() {
    let events = vec![
        MdEvent::HeaderStart,
        MdEvent::Text("https://github.com/skip/me/issues/1".to_string()),
        MdEvent::Text("Rust Issue".to_string()),
        MdEvent::LinkStart("https://github.com/a/b/issues/2".to_string()),
        MdEvent::Other,
        MdEvent::Text("https://github.com/c/d/pull/3".to_string()),
        MdEvent::HeaderStart,
        MdEvent::Text("https://github.com/skip/me/issues/4".to_string()),
    ];
    assert_eq!(Rfc::issues_from_events(&events), vec![issue("a", "b", 2), issue("c", "d", 3)]);
}

#[test]
fn a_number_that_cannot_be_read_is_reported() {
    let md = "Rust Issue: https://github.com/a/b/issues/99999999999\n";
    assert_eq!(Rfc::parse_issues(md), None);
    let events = vec![MdEvent::Text("Rust Issue https://github.com/a/b/issues/99999999999".to_string())];
    assert_eq!(Rfc::try_issues_from_events(&events), None);
}

#[test]
fn a_number_outside_the_section_does_not_matter() {
    let md = "# A\n\nhttps://github.com/a/b/issues/99999999999\n\nRust Issue: https://github.com/a/b/issues/3\n";
    assert_eq!(Rfc::parse_issues(md), Some(vec![issue("a", "b", 3)]));
}

use rfi::rfc::Issue;

fn issue(owner: &str, repo: &str, number: u32) -> Issue {
    Issue { owner: owner.to_string(), repo: repo.to_string(), number }
}

#[test]
fn reads_an_issue_link() {
    assert_eq!(
        Issue::from_text("Rust Issue: https://github.com/rust-lang/rust/issues/1234"),
        vec![issue("rust-lang", "rust", 1234)]
    );
}

#[test]
fn reads_a_pull_request_link() {
    assert_eq!(
        Issue::from_text("see https://github.com/rust-lang/rfcs/pull/77 and more"),
        vec![issue("rust-lang", "rfcs", 77)]
    );
}

#[test]
fn reads_links_left_to_right() {
    let text = "https://github.com/a/b/issues/1, https://github.com/c/d/pull/22https://github.com/e/f/issues/333";
    assert_eq!(
        Issue::from_text(text),
        vec![issue("a", "b", 1), issue("c", "d", 22), issue("e", "f", 333)]
    );
}

#[test]
fn number_is_the_longest_digit_run() {
    assert_eq!(
        Issue::from_text("https://github.com/a/b/issues/0042x"),
        vec![issue("a", "b", 42)]
    );
}

#[test]
fn other_texts_name_nothing() {
    for text in [
        "",
        "no links here",
        "https://github.com/a/b/issues/",
        "https://github.com/a/b/commits/12",
        "https://github.com//b/issues/12",
        "https://github.com/a//issues/12",
        "http://github.com/a/b/issues/12",
        "https://gitlab.com/a/b/issues/12",
        "https://github\ncom/a/b/issues/12",
    ] {
        assert_eq!(Issue::from_text(text), vec![], "{:?}", text);
    }
}

#[test]
fn the_dot_before_com_is_any_character_but_a_line_feed() {
    assert_eq!(
        Issue::from_text("https://githubXcom/a/b/issues/5"),
        vec![issue("a", "b", 5)]
    );
}

#[test]
fn owner_and_repository_stop_at_a_slash_only() {
    assert_eq!(
        Issue::from_text("https://github.com/a b\nc/r.s/issues/9"),
        vec![issue("a b\nc", "r.s", 9)]
    );
}

#[test]
fn a_failed_candidate_does_not_hide_a_later_link() {
    assert_eq!(
        Issue::from_text("https://github.com/x/y/z/issues/1 https://github.com/p/q/issues/2"),
        vec![issue("p", "q", 2)]
    );
}

#[test]
fn numbers_that_cannot_be_read_are_reported() {
    assert_eq!(Issue::try_from_text("https://github.com/a/b/issues/4294967296"), None);
    assert_eq!(Issue::try_from_text("https://github.com/a/b/issues/12\u{663}"), None);
    assert_eq!(Issue::try_from_text("https://github.com/a/b/issues/\u{661}"), None);
    assert_eq!(
        Issue::try_from_text("https://github.com/a/b/issues/4294967295"),
        Some(vec![issue("a", "b", 4294967295)])
    );
}

use rfi::errors::Error;
use rfi::github::{self, State};
use rfi::rfc::{repo_action, Issue, RepoAction, RfcLoad};

const MARKDOWN: &str = "- Rust Issue: https://github.com/rust-lang/rust/issues/10 https://github.com/rust-lang/rust/pull/11\n";

fn described(number: u32, state: State) -> github::Issue {
    github::Issue::new(number, format!("title {}", number), state, format!("https://github.com/rust-lang/rust/issues/{}", number))
}

#[test]
fn asks_for_each_tracking_issue_in_order_and_keeps_the_answers() {
    let mut load = RfcLoad::new(256, "short".to_string(), MARKDOWN).unwrap();
    assert_eq!(
        load.pending(),
        Some(&Issue { owner: "rust-lang".to_string(), repo: "rust".to_string(), number: 10 })
    );
    assert_eq!(load.receive(Ok(described(10, State::Closed))), Ok(()));
    assert_eq!(
        load.pending(),
        Some(&Issue { owner: "rust-lang".to_string(), repo: "rust".to_string(), number: 11 })
    );
    assert_eq!(load.receive(Ok(described(11, State::Merged))), Ok(()));
    assert_eq!(load.pending(), None);
    let rfc = load.finish();
    assert_eq!(rfc.number, 256);
    assert_eq!(rfc.short_title, "short");
    assert_eq!(rfc.issues, vec![described(10, State::Closed), described(11, State::Merged)]);
}

#[test]
fn an_rfc_without_tracking_issues_is_done_at_once() {
    let load = RfcLoad::new(1, "none".to_string(), "# Summary\n").unwrap();
    assert_eq!(load.pending(), None);
    let rfc = load.finish();
    assert!(rfc.issues.is_empty());
}

#[test]
fn a_failed_answer_names_the_rfc() {
    let mut load = RfcLoad::new(42, "t".to_string(), MARKDOWN).unwrap();
    let cause = github::Error::Gql(vec!["{\"message\":\"not found\"}".to_string()]);
    assert_eq!(
        load.receive(Err(cause)),
        Err(Error::TicketInfo {
            rfc_number: 42,
            cause: github::Error::Gql(vec!["{\"message\":\"not found\"}".to_string()]),
        })
    );
}

#[test]
fn markdown_with_an_unreadable_number_cannot_be_loaded() {
    assert!(RfcLoad::new(1, "t".to_string(), "Rust Issue: https://github.com/a/b/issues/5000000000").is_none());
}

#[test]
fn existing_checkouts_are_updated_others_cloned() {
    assert_eq!(repo_action(true), RepoAction::OpenAndUpdate);
    assert_eq!(repo_action(false), RepoAction::Clone);
    assert_eq!(rfi::rfc::RFC_REPO_URL, "https://github.com/rust-lang/rfcs");
}

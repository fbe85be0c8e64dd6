use rfi::github::{issue_from_response, Error, GqlIssue, GqlRepository, GqlResponse, Issue, State, Token};

fn sample() -> Issue {
    Issue::new(1234, "Tracking issue".to_string(), State::Open, "https://github.com/rust-lang/rust/issues/1234".to_string())
}

#[test]
fn issue_getters() {
    let issue = sample();
    assert_eq!(issue.number(), 1234);
    assert_eq!(issue.state(), State::Open);
    assert_eq!(issue.title(), "Tracking issue");
    assert_eq!(issue.url(), "https://github.com/rust-lang/rust/issues/1234");
}

#[test]
fn data_answer_gives_the_issue() {
    let response = GqlResponse::Data { data: GqlRepository { repository: GqlIssue { issue: sample() } } };
    assert_eq!(issue_from_response(response), Ok(sample()));
}

#[test]
fn error_answer_gives_the_errors() {
    let errors = vec!["{\"message\":\"a\"}".to_string(), "{\"message\":\"b\"}".to_string()];
    let response: GqlResponse<GqlRepository<GqlIssue>> = GqlResponse::Errors { errors: errors.clone() };
    assert_eq!(issue_from_response(response), Err(Error::Gql(errors)));
}

#[test]
fn token_authorization_header() {
    let token = Token::new("abc123".to_string());
    assert_eq!(token.secret(), "abc123");
    assert_eq!(Token::scheme(), "token");
    assert_eq!(token.authorization(), "token abc123");
}

#[test]
fn token_cannot_be_parsed() {
    assert_eq!("abc".parse::<Token>().err(), Some("Cannot parse github token"));
}

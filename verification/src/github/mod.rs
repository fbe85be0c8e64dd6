//! What the library knows of GitHub: issues and their states, the API
//! token, and the meaning of GitHub's GraphQL answers.

pub mod errors;
pub mod token;

pub use self::errors::Error;
pub use self::token::Token;

use vstd::prelude::*;

verus! {

/// The state of an issue or a pull request.
#[derive(Debug, PartialEq, Eq, Structural, Copy, Clone)]
pub enum State {
    Open,
    Closed,
    Merged,
}

/// An issue or pull request as GitHub describes it.
#[derive(Debug, PartialEq, Eq)]
pub struct Issue {
    number: u32,
    title: String,
    state: State,
    url: String,
}

/// The mathematical value of an `Issue`.
pub struct IssueModel {
    pub number: u32,
    pub title: Seq<char>,
    pub state: State,
    pub url: Seq<char>,
}

impl View for Issue {
    type V = IssueModel;

    closed spec fn view(&self) -> IssueModel {
        IssueModel { number: self.number, title: self.title@, state: self.state, url: self.url@ }
    }
}

impl Issue {
    /// An issue with the given number, title, state and address.
    pub fn new(number: u32, title: String, state: State, url: String) -> (r: Issue)
        ensures
            r@ == (IssueModel { number, title: title@, state, url: url@ }),
    {
        Issue { number, title, state, url }
    }

    /// The state of the issue.
    pub fn state(&self) -> (r: State)
        ensures
            r == self@.state,
    {
        self.state
    }

    /// The number of the issue.
    pub fn number(&self) -> (r: u32)
        ensures
            r == self@.number,
    {
        self.number
    }

    /// The title of the issue.
    pub fn title(&self) -> (r: &str)
        ensures
            r@ == self@.title,
    {
        self.title.as_str()
    }

    /// The address of the issue.
    pub fn url(&self) -> (r: &str)
        ensures
            r@ == self@.url,
    {
        self.url.as_str()
    }
}

/// The address of GitHub's GraphQL API.
pub const ROOT: &'static str = "https://api.github.com/graphql";

/// The user agent that requests to GitHub name.
pub const USER_AGENT: &'static str = "gh: panicbit/rfi";

/// The media type that requests to GitHub accept.
pub const ACCEPT: &'static str = "application/vnd.github.v4+json";

/// The GraphQL query for an issue or pull request, with the variables
/// `owner`, `repo` and `number`.
pub const ISSUE_QUERY: &'static str = r#"
            query($owner: String!, $repo: String!, $number: Int!) {
                repository(owner: $owner, name: $repo) {
                    issue: issueOrPullRequest(number: $number) {
                        ...on PullRequest { number title state url }
                        ... on Issue { number title state url }
                    }
                }
            }
        "#;

/// A GraphQL answer: either errors, each held as JSON text, or data.
pub enum GqlResponse<T> {
    Errors { errors: Vec<String> },
    Data { data: T },
}

/// The `repository` field of a GraphQL answer.
pub struct GqlRepository<T> {
    pub repository: T,
}

/// The `issue` field of a repository in a GraphQL answer.
pub struct GqlIssue {
    pub issue: Issue,
}

/// What GitHub's answer to the issue query means: the issue, or the
/// GraphQL errors that GitHub reported instead.
pub fn issue_from_response(response: GqlResponse<GqlRepository<GqlIssue>>) -> (r: Result<
    Issue,
    Error,
>)
    ensures
        r == match response {
            GqlResponse::Errors { errors } => Err(Error::Gql(errors)),
            GqlResponse::Data { data } => Ok(data.repository.issue),
        },
{
    match response {
        GqlResponse::Errors { errors } => Err(Error::Gql(errors)),
        GqlResponse::Data { data } => Ok(data.repository.issue),
    }
}

/// `std::time::SystemTime`, a point in time, carried as it is.
#[verifier::external_type_specification]
#[verifier::external_body]
pub struct ExSystemTime(std::time::SystemTime);

/// GitHub's rate limit: how many requests are allowed, how many are left,
/// and when the count starts over.
pub struct RateLimit {
    pub limit: u32,
    pub remaining: u32,
    pub reset: std::time::SystemTime,
}

} // verus!

//! The errors of the GitHub client.

use vstd::prelude::*;

verus! {

/// What can go wrong while asking GitHub about an issue.
#[derive(Debug, PartialEq, Eq)]
pub enum Error {
    /// The answer could not be read as a GraphQL response; holds a
    /// description of the request and the response.
    Unknown(String),
    /// GitHub answered with GraphQL errors; holds each error as JSON text.
    Gql(Vec<String>),
    /// The request could not be sent or its answer not received; holds the
    /// HTTP client's message.
    Reqwest(String),
}

} // verus!

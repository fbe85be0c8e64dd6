//! The token that authenticates requests to GitHub.

use vstd::prelude::*;

verus! {

/// A GitHub API token. It is never shown: the type has no `Debug`.
#[derive(Clone)]
pub struct Token(String);

impl View for Token {
    type V = Seq<char>;

    closed spec fn view(&self) -> Seq<char> {
        self.0@
    }
}

/// `token `, the scheme of GitHub's token authorization and a space.
pub open spec fn token_scheme_prefix() -> Seq<char> {
    seq!['t', 'o', 'k', 'e', 'n', ' ']
}

impl Token {
    /// A token with the given secret.
    pub fn new(secret: String) -> (r: Token)
        ensures
            r@ == secret@,
    {
        Token(secret)
    }

    /// The secret of the token.
    pub fn secret(&self) -> (r: &str)
        ensures
            r@ == self@,
    {
        self.0.as_str()
    }

    /// The authorization scheme under which the token is sent.
    pub fn scheme() -> (r: &'static str)
        ensures
            r@ == seq!['t', 'o', 'k', 'e', 'n'],
    {
        proof {
            reveal_strlit("token");
        }
        "token"
    }

    /// The value of the `Authorization` header that carries the token: the
    /// scheme, a space, and the secret.
    pub fn authorization(&self) -> (r: String)
        ensures
            r@ == token_scheme_prefix() + self@,
    {
        proof {
            reveal_strlit("token ");
        }
        let prefix = String::from_str("token ");
        prefix.concat(self.0.as_str())
    }
}

/// `Cannot parse github token`, why no text can be read as a token.
pub open spec fn cannot_parse_message() -> Seq<char> {
    seq![
        'C', 'a', 'n', 'n', 'o', 't', ' ', 'p', 'a', 'r', 's', 'e', ' ', 'g', 'i', 't', 'h', 'u',
        'b', ' ', 't', 'o', 'k', 'e', 'n',
    ]
}

impl std::str::FromStr for Token {
    type Err = &'static str;

    fn from_str(_token: &str) -> (r: Result<Token, &'static str>)
        ensures
            r matches Err(message) && message@ == cannot_parse_message(),
    {
        proof {
            reveal_strlit("Cannot parse github token");
        }
        Err("Cannot parse github token")
    }
}

} // verus!

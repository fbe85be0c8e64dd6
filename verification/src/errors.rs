//! The errors of the library.

use vstd::prelude::*;
use crate::github;

verus! {

/// What can go wrong while reading RFCs.
#[derive(Debug, PartialEq, Eq)]
pub enum Error {
    /// An RFC file name is not `<number>-<title>.md`; holds the file name.
    UnexpectedFileNameFormat(String),
    /// A tracking issue of the RFC numbered `rfc_number` could not be
    /// fetched from GitHub.
    TicketInfo { rfc_number: u32, cause: github::Error },
    /// Reading a file or a directory failed; holds the system's message.
    Io(String),
    /// A git operation on the RFC repository failed; holds git's message.
    Git(String),
}

} // verus!

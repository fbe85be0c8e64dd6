//! Loading an RFC: asking GitHub about its tracking issues one after the
//! other, and making the RFC repository ready.

use vstd::prelude::*;
use crate::errors::Error;
use crate::github;
use crate::markdown::markdown_events;
use super::{github_issues_view, issues_view, Issue, Rfc};
use super::tracking::{section_issues, section_numbers_fit};

verus! {

/// An RFC whose file has been read and whose tracking issues are being
/// asked of GitHub, one after the other, in the order its text names them.
pub struct RfcLoad {
    number: u32,
    short_title: String,
    tickets: Vec<Issue>,
    fetched: Vec<github::Issue>,
}

/// The mathematical value of an `RfcLoad`: the RFC's number and short
/// title, the tracking issues its text names, and GitHub's descriptions of
/// the first of them, received so far.
pub struct RfcLoadModel {
    pub number: u32,
    pub short_title: Seq<char>,
    pub tickets: Seq<(Seq<char>, Seq<char>, u32)>,
    pub fetched: Seq<github::IssueModel>,
}

/// The load after GitHub's description `answer` of the pending tracking
/// issue has been received.
pub open spec fn after_answer(m: RfcLoadModel, answer: github::IssueModel) -> RfcLoadModel {
    RfcLoadModel { fetched: m.fetched.push(answer), ..m }
}

/// The load after the descriptions `answers` have been received, one after
/// the other.
pub open spec fn after_answers(m: RfcLoadModel, answers: Seq<github::IssueModel>) -> RfcLoadModel
    decreases answers.len(),
{
    if answers.len() == 0 {
        m
    } else {
        after_answer(after_answers(m, answers.drop_last()), answers.last())
    }
}

/// Answering the pending tracking issues one after the other keeps the
/// answers in the order they came, asks for each tracking issue in the
/// order the text names them, and changes nothing else; once there are as
/// many answers as tracking issues, none is pending.
pub proof fn law_answers_kept_in_order(m: RfcLoadModel, answers: Seq<github::IssueModel>)
    ensures
        after_answers(m, answers).fetched == m.fetched + answers,
        after_answers(m, answers).tickets == m.tickets,
        after_answers(m, answers).number == m.number,
        after_answers(m, answers).short_title == m.short_title,
        forall|k: int|
            0 <= k < answers.len() ==> {
                let before = #[trigger] after_answers(m, answers.take(k));
                &&& before.fetched.len() == m.fetched.len() + k
                &&& before.tickets[before.fetched.len() as int] == m.tickets[m.fetched.len() + k]
            },
    decreases answers.len(),
{
    if answers.len() > 0 {
        law_answers_kept_in_order(m, answers.drop_last());
        assert(m.fetched + answers.drop_last() + seq![answers.last()] =~= m.fetched + answers);
        assert forall|k: int| 0 <= k < answers.len() implies {
            let before = #[trigger] after_answers(m, answers.take(k));
            &&& before.fetched.len() == m.fetched.len() + k
            &&& before.tickets[before.fetched.len() as int] == m.tickets[m.fetched.len() + k]
        } by {
            law_answers_kept_in_order(m, answers.take(k));
        }
    }
}

impl View for RfcLoad {
    type V = RfcLoadModel;

    closed spec fn view(&self) -> RfcLoadModel {
        RfcLoadModel {
            number: self.number,
            short_title: self.short_title@,
            tickets: issues_view(self.tickets@),
            fetched: github_issues_view(self.fetched@),
        }
    }
}

impl RfcLoad {
    /// No more descriptions have been received than issues were named.
    #[verifier::type_invariant]
    spec fn fetched_within_tickets(self) -> bool {
        self.fetched@.len() <= self.tickets@.len()
    }

    /// Starts loading the RFC numbered `number` with the short title
    /// `short_title`, whose markdown is `markdown`: finds the tracking
    /// issues that the markdown names (see `Rfc::parse_issues`). `None` when
    /// the number of one of them cannot be read as a `u32`.
    pub fn new(number: u32, short_title: String, markdown: &str) -> (r: Option<RfcLoad>)
        ensures
            match r {
                Some(load) => {
                    &&& section_numbers_fit(markdown_events(markdown@))
                    &&& load@ == (RfcLoadModel {
                        number,
                        short_title: short_title@,
                        tickets: section_issues(markdown_events(markdown@)),
                        fetched: seq![],
                    })
                },
                None => !section_numbers_fit(markdown_events(markdown@)),
            },
    {
        match Rfc::parse_issues(markdown) {
            Some(tickets) => {
                let load = RfcLoad { number, short_title, tickets, fetched: Vec::new() };
                assert(github_issues_view(load.fetched@) =~= seq![]);
                Some(load)
            },
            None => None,
        }
    }

    /// The next tracking issue to ask GitHub about, or `None` when GitHub
    /// has described them all.
    pub fn pending(&self) -> (r: Option<&Issue>)
        ensures
            match r {
                Some(issue) => {
                    &&& self@.fetched.len() < self@.tickets.len()
                    &&& issue@ == self@.tickets[self@.fetched.len() as int]
                },
                None => self@.fetched.len() == self@.tickets.len(),
            },
    {
        proof {
            use_type_invariant(self);
        }
        if self.fetched.len() < self.tickets.len() {
            Some(&self.tickets[self.fetched.len()])
        } else {
            None
        }
    }

    /// Takes GitHub's answer about the pending tracking issue: its
    /// description is kept; a failure ends the loading with an error that
    /// names the RFC.
    pub fn receive(&mut self, reply: Result<github::Issue, github::Error>) -> (r: Result<(), Error>)
        requires
            old(self)@.fetched.len() < old(self)@.tickets.len(),
        ensures
            match reply {
                Ok(issue) => {
                    &&& r is Ok
                    &&& final(self)@ == after_answer(old(self)@, issue@)
                },
                Err(cause) => {
                    &&& r == Err::<(), Error>(
                        Error::TicketInfo { rfc_number: old(self)@.number, cause },
                    )
                    &&& final(self)@ == old(self)@
                },
            },
    {
        proof {
            use_type_invariant(&*self);
        }
        match reply {
            Ok(issue) => {
                let ghost before = self.fetched@;
                let mut fetched: Vec<github::Issue> = Vec::new();
                std::mem::swap(&mut fetched, &mut self.fetched);
                fetched.push(issue);
                assert(github_issues_view(fetched@) =~= github_issues_view(before).push(
                    fetched@.last()@,
                ));
                self.fetched = fetched;
                Ok(())
            },
            Err(cause) => Err(Error::TicketInfo { rfc_number: self.number, cause }),
        }
    }

    /// The loaded RFC, once GitHub has described all its tracking issues:
    /// its issues are those descriptions, in the order the text named the
    /// issues.
    pub fn finish(self) -> (r: Rfc)
        requires
            self@.fetched.len() == self@.tickets.len(),
        ensures
            r@ == (self@.number, self@.short_title, self@.fetched),
    {
        Rfc { number: self.number, short_title: self.short_title, issues: self.fetched }
    }
}

/// Where the RFC repository is cloned from.
pub const RFC_REPO_URL: &'static str = "https://github.com/rust-lang/rfcs";

/// The remote that an existing checkout is updated from.
pub const UPDATE_REMOTE: &'static str = "origin";

/// The branch that is fetched from that remote.
pub const UPDATE_BRANCH: &'static str = "master";

/// The reference that the checkout is moved to after fetching.
pub const UPDATE_HEAD: &'static str = "refs/remotes/origin/master";

/// How the RFC repository is made ready.
#[derive(Debug, PartialEq, Eq, Structural, Copy, Clone)]
pub enum RepoAction {
    /// Open the checkout that exists and update it from its remote.
    OpenAndUpdate,
    /// Clone the repository from `RFC_REPO_URL`.
    Clone,
}

/// An existing checkout is opened and updated; otherwise the repository
/// is cloned.
pub fn repo_action(path_exists: bool) -> (r: RepoAction)
    ensures
        r == (if path_exists { RepoAction::OpenAndUpdate } else { RepoAction::Clone }),
{
    if path_exists {
        RepoAction::OpenAndUpdate
    } else {
        RepoAction::Clone
    }
}

} // verus!

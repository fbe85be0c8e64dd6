//! RFCs: their file names, the tracking issues their text links to, and
//! the loading of an RFC once its file has been read.

mod file_name;
mod load;
mod tracking;

pub use self::file_name::{
    ascii_digit_run_end, file_name_parts, law_file_name_read_back, law_file_name_shape,
    markdown_extension, no_line_feed, parse_file_name,
};
pub use self::load::{
    after_answer, after_answers, law_answers_kept_in_order, repo_action, RepoAction, RfcLoad,
    RfcLoadModel, RFC_REPO_URL, UPDATE_BRANCH, UPDATE_HEAD, UPDATE_REMOTE,
};
pub use self::tracking::{
    event_issues, event_numbers_fit, header_index, is_marker_event, issues_between, marker_index,
    matches_ignoring_case, section_end, section_issues, section_numbers_fit, section_start,
    starts_with_tracking_marker, tracking_marker,
};

use vstd::prelude::*;
use crate::github;
use crate::links::{find_link_at, link_issue, link_issues, link_number_fits, link_numbers_fit, links, links_from};
use crate::text::{chars_of, parse_u32_digits};

verus! {

/// An RFC: its number, its short title (from its file name) and the
/// GitHub issues that track it.
#[derive(Debug)]
pub struct Rfc {
    pub number: u32,
    pub short_title: String,
    pub issues: Vec<github::Issue>,
}

/// A tracking issue that an RFC text links to.
#[derive(Debug, PartialEq, Eq)]
pub struct Issue {
    pub owner: String,
    pub repo: String,
    pub number: u32,
}

impl View for Issue {
    type V = (Seq<char>, Seq<char>, u32);

    open spec fn view(&self) -> (Seq<char>, Seq<char>, u32) {
        (self.owner@, self.repo@, self.number)
    }
}

/// The views of a sequence of tracking issues.
pub open spec fn issues_view(v: Seq<Issue>) -> Seq<(Seq<char>, Seq<char>, u32)> {
    v.map_values(|x: Issue| x@)
}

impl Issue {
    /// The tracking issues that the links in `text` name, left to right.
    pub fn from_text(text: &str) -> (r: Vec<Issue>)
        requires
            link_numbers_fit(text@),
        ensures
            issues_view(r@) == link_issues(text@),
    {
        match Issue::try_from_text(text) {
            Some(v) => v,
            None => Vec::new(),
        }
    }

    /// The tracking issues that the links in `text` name, left to right;
    /// `None` when the number of one of them cannot be read as a `u32`.
    pub fn try_from_text(text: &str) -> (r: Option<Vec<Issue>>)
        ensures
            match r {
                Some(v) => link_numbers_fit(text@) && issues_view(v@) == link_issues(text@),
                None => !link_numbers_fit(text@),
            },
    {
        let t = chars_of(text);
        let ghost tv = t@;
        let mut out: Vec<Issue> = Vec::new();
        let ghost mut done: Seq<(int, int, int, int, int)> = seq![];
        let mut i: usize = 0;
        while i < t.len()
            invariant
                tv == t@,
                tv == text@,
                i <= t.len(),
                forall|k: int| 0 <= k < done.len() ==> #[trigger] link_number_fits(tv, done[k]),
                done + links_from(tv, i as int) == links(tv),
                issues_view(out@) =~= done.map_values(
                    |span: (int, int, int, int, int)| link_issue(tv, span),
                ),
            decreases t.len() - i,
        {
            match find_link_at(&t, i) {
                Some((oe, re, ds, de)) => {
                    let ghost span = (i as int, oe as int, re as int, ds as int, de as int);
                    assert(links_from(tv, i as int) == seq![span] + links_from(tv, de as int));
                    assert(links(tv)[done.len() as int] == span) by {
                        assert((done + links_from(tv, i as int))[done.len() as int] == span);
                    }
                    let number = match parse_u32_digits(&t, ds, de) {
                        Some(n) => n,
                        None => {
                            assert(!link_number_fits(tv, links(tv)[done.len() as int]));
                            return None;
                        },
                    };
                    let owner = text.substring_char(i + 19, oe).to_owned();
                    let repo = text.substring_char(oe + 1, re).to_owned();
                    let issue = Issue { owner, repo, number };
                    assert(issue@ == link_issue(tv, span));
                    let ghost old_out = out@;
                    out.push(issue);
                    proof {
                        assert(issues_view(out@) =~= issues_view(old_out).push(issue@));
                        assert((done + seq![span]).map_values(
                            |sp: (int, int, int, int, int)| link_issue(tv, sp),
                        ) =~= done.map_values(|sp: (int, int, int, int, int)| link_issue(tv, sp)).push(
                            link_issue(tv, span),
                        ));
                        assert(done + seq![span] + links_from(tv, de as int) =~= done + (seq![span]
                            + links_from(tv, de as int)));
                        done = done + seq![span];
                        assert(forall|k: int| 0 <= k < done.len() ==> #[trigger] link_number_fits(tv, done[k]));
                    }
                    i = de;
                },
                None => {
                    assert(links_from(tv, i as int) == links_from(tv, i + 1));
                    i = i + 1;
                },
            }
        }
        assert(links_from(tv, i as int) == Seq::<(int, int, int, int, int)>::empty());
        assert(done =~= links(tv));
        Some(out)
    }
}

impl View for Rfc {
    type V = (u32, Seq<char>, Seq<github::IssueModel>);

    open spec fn view(&self) -> (u32, Seq<char>, Seq<github::IssueModel>) {
        (self.number, self.short_title@, github_issues_view(self.issues@))
    }
}

/// The views of a sequence of GitHub issues.
pub open spec fn github_issues_view(v: Seq<github::Issue>) -> Seq<github::IssueModel> {
    v.map_values(|x: github::Issue| x@)
}

} // verus!

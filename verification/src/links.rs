//! The grammar of the GitHub issue and pull-request links that an RFC text
//! names as its tracking issues:
//! `https://github.com/<owner>/<repo>/(issues|pull)/<number>`, where the
//! character between `github` and `com` may be any character but a line
//! feed, owner and repository are non-empty runs without `/`, and the
//! number is the longest run of `\d` (Unicode decimal) characters.
//! Links are found left to right and do not overlap.

use vstd::prelude::*;
use crate::text::{all_ascii_digits, decimal_value, is_unicode_decimal, is_decimal_char, parsed_u32};

verus! {

/// The characters of `lit` stand in `t` from position `i` on.
pub open spec fn has_at(t: Seq<char>, i: int, lit: Seq<char>) -> bool {
    0 <= i && i + lit.len() <= t.len() && t.subrange(i, i + lit.len()) == lit
}

/// `https://github`
pub open spec fn scheme_and_host() -> Seq<char> {
    seq!['h', 't', 't', 'p', 's', ':', '/', '/', 'g', 'i', 't', 'h', 'u', 'b']
}

/// `com/`
pub open spec fn top_level_domain() -> Seq<char> {
    seq!['c', 'o', 'm', '/']
}

/// `issues/`
pub open spec fn issues_segment() -> Seq<char> {
    seq!['i', 's', 's', 'u', 'e', 's', '/']
}

/// `pull/`
pub open spec fn pull_segment() -> Seq<char> {
    seq!['p', 'u', 'l', 'l', '/']
}

/// The first position at or after `j` that holds `/`, or the length of `t`
/// when there is none.
pub open spec fn next_slash(t: Seq<char>, j: int) -> int
    decreases t.len() - j,
{
    if 0 <= j < t.len() && t[j] != '/' {
        next_slash(t, j + 1)
    } else if 0 <= j < t.len() {
        j
    } else {
        t.len() as int
    }
}

/// The end of the longest run of `\d` characters that starts at `j`.
pub open spec fn decimal_run_end(t: Seq<char>, j: int) -> int
    decreases t.len() - j,
{
    if 0 <= j < t.len() && is_unicode_decimal(t[j]) {
        decimal_run_end(t, j + 1)
    } else {
        j
    }
}

/// Where the number of a link starts, given where `issues/` or `pull/` would
/// start; `-1` when neither stands there.
pub open spec fn number_start(t: Seq<char>, k: int) -> int {
    if has_at(t, k, issues_segment()) {
        k + 7
    } else if has_at(t, k, pull_segment()) {
        k + 5
    } else {
        -1
    }
}

/// The link that starts at position `i` of `t`, if one does: the end of its
/// owner (which starts at `i + 19`), the end of its repository (which starts
/// one after the owner's end), and the start and end of its number.
pub open spec fn link_at(t: Seq<char>, i: int) -> Option<(int, int, int, int)> {
    let owner_start = i + 19;
    if has_at(t, i, scheme_and_host()) && i + 14 < t.len() && t[i + 14] != '\n' && has_at(
        t,
        i + 15,
        top_level_domain(),
    ) {
        let owner_end = next_slash(t, owner_start);
        let repo_end = next_slash(t, owner_end + 1);
        let ds = number_start(t, repo_end + 1);
        if owner_start < owner_end < t.len() && owner_end + 1 < repo_end < t.len() && ds >= 0
            && decimal_run_end(t, ds) > ds {
            Some((owner_end, repo_end, ds, decimal_run_end(t, ds)))
        } else {
            None
        }
    } else {
        None
    }
}

/// The links of `t` from position `i` on, leftmost first, each one found
/// after the end of the one before: its start, then the positions that
/// `link_at` gives.
pub open spec fn links_from(t: Seq<char>, i: int) -> Seq<(int, int, int, int, int)>
    decreases t.len() - i,
{
    if 0 <= i < t.len() {
        match link_at(t, i) {
            Some((oe, re, ds, de)) => {
                proof {
                    lemma_link_at_bounds(t, i);
                }
                seq![(i, oe, re, ds, de)] + links_from(t, de)
            },
            None => links_from(t, i + 1),
        }
    } else {
        seq![]
    }
}

/// A run of `\d` characters ends within the text.
proof fn lemma_decimal_run_end_bounds(t: Seq<char>, j: int)
    requires
        0 <= j <= t.len(),
    ensures
        j <= decimal_run_end(t, j) <= t.len(),
    decreases t.len() - j,
{
    if j < t.len() && is_unicode_decimal(t[j]) {
        lemma_decimal_run_end_bounds(t, j + 1);
    }
}

/// The parts of a link lie in order within the text, after its start.
pub proof fn lemma_link_at_bounds(t: Seq<char>, i: int)
    requires
        0 <= i,
        link_at(t, i) is Some,
    ensures
        ({
            let (oe, re, ds, de) = link_at(t, i)->0;
            i + 19 < oe < re < ds < de <= t.len()
        }),
{
    let (oe, re, ds, de) = link_at(t, i)->0;
    lemma_decimal_run_end_bounds(t, ds);
}

/// All links of `t`.
pub open spec fn links(t: Seq<char>) -> Seq<(int, int, int, int, int)> {
    links_from(t, 0)
}

/// The tracking issue that the link `span` of `t` names: its owner, its
/// repository, and its number as `str::parse::<u32>` reads it (meaningful
/// when `link_number_fits` holds).
pub open spec fn link_issue(t: Seq<char>, span: (int, int, int, int, int)) -> (
    Seq<char>,
    Seq<char>,
    u32,
) {
    (
        t.subrange(span.0 + 19, span.1),
        t.subrange(span.1 + 1, span.2),
        parsed_u32(t.subrange(span.3, span.4))->0,
    )
}

/// The number of the link `span` of `t` is all ASCII digits and fits in a
/// `u32`, so that reading it succeeds.
pub open spec fn link_number_fits(t: Seq<char>, span: (int, int, int, int, int)) -> bool {
    parsed_u32(t.subrange(span.3, span.4)) is Some
}

/// The number of every link of `t` can be read as a `u32`.
pub open spec fn link_numbers_fit(t: Seq<char>) -> bool {
    forall|k: int| 0 <= k < links(t).len() ==> #[trigger] link_number_fits(t, links(t)[k])
}

/// The tracking issues that the links of `t` name, in order.
pub open spec fn link_issues(t: Seq<char>) -> Seq<(Seq<char>, Seq<char>, u32)> {
    links(t).map_values(|span: (int, int, int, int, int)| link_issue(t, span))
}

/// `s` holds no `/`.
pub open spec fn no_slash(s: Seq<char>) -> bool {
    forall|i: int| 0 <= i < s.len() ==> s[i] != '/'
}

/// A link to an issue (`segment` is `issues/`) or a pull request
/// (`segment` is `pull/`) of `owner/repo`, with the number written as
/// `digits`.
pub open spec fn issue_link(
    owner: Seq<char>,
    repo: Seq<char>,
    segment: Seq<char>,
    digits: Seq<char>,
) -> Seq<char> {
    scheme_and_host() + seq!['.'] + top_level_domain() + owner + seq!['/'] + repo + seq!['/']
        + segment + digits
}

/// The next `/` at or after `a` is at `b` when none stands in between.
proof fn lemma_next_slash_at(t: Seq<char>, a: int, b: int)
    requires
        0 <= a <= b < t.len(),
        t[b] == '/',
        forall|j: int| a <= j < b ==> t[j] != '/',
    ensures
        next_slash(t, a) == b,
    decreases b - a,
{
    if a < b {
        lemma_next_slash_at(t, a + 1, b);
    }
}

/// A run of `\d` characters that reaches the end of `t` ends there.
proof fn lemma_decimal_run_to_end(t: Seq<char>, a: int)
    requires
        0 <= a <= t.len(),
        forall|j: int| a <= j < t.len() ==> is_unicode_decimal(#[trigger] t[j]),
    ensures
        decimal_run_end(t, a) == t.len(),
    decreases t.len() - a,
{
    if a < t.len() {
        lemma_decimal_run_to_end(t, a + 1);
    }
}

/// A text that is a single link to an issue or pull request names exactly
/// that issue: its owner, its repository, and the number its digits spell.
/// (The digits must be in the `\d` class; the ASCII digits are, as the
/// wrapper of the `regex` crate states.)
pub proof fn law_single_link_read_back(
    owner: Seq<char>,
    repo: Seq<char>,
    segment: Seq<char>,
    digits: Seq<char>,
)
    requires
        owner.len() > 0,
        repo.len() > 0,
        no_slash(owner),
        no_slash(repo),
        segment == issues_segment() || segment == pull_segment(),
        digits.len() > 0,
        forall|i: int| 0 <= i < digits.len() ==> is_unicode_decimal(#[trigger] digits[i]),
    ensures
        links(issue_link(owner, repo, segment, digits)) == seq![
            (
                0int,
                19 + owner.len() as int,
                20 + owner.len() as int + repo.len() as int,
                21 + owner.len() as int + repo.len() as int + segment.len() as int,
                issue_link(owner, repo, segment, digits).len() as int,
            ),
        ],
        link_issues(issue_link(owner, repo, segment, digits)) == seq![
            (owner, repo, parsed_u32(digits)->0),
        ],
{
    let t = issue_link(owner, repo, segment, digits);
    let oe: int = 19 + owner.len() as int;
    let re: int = oe + 1 + repo.len() as int;
    let ds: int = re + 1 + segment.len() as int;
    assert(t.subrange(0, 14) =~= scheme_and_host());
    assert(t[14] == '.');
    assert(t.subrange(15, 19) =~= top_level_domain());
    assert(t[oe] == '/');
    assert forall|j: int| 19 <= j < oe implies t[j] != '/' by {
        assert(t[j] == owner[j - 19]);
    }
    lemma_next_slash_at(t, 19, oe);
    assert(t[re] == '/');
    assert forall|j: int| oe + 1 <= j < re implies t[j] != '/' by {
        assert(t[j] == repo[j - oe - 1]);
    }
    lemma_next_slash_at(t, oe + 1, re);
    if segment == issues_segment() {
        assert(t.subrange(re + 1, re + 8) =~= issues_segment());
    } else {
        assert(t[re + 1] == 'p');
        if re + 8 <= t.len() {
            assert(t.subrange(re + 1, re + 8)[0] != issues_segment()[0]);
        }
        assert(!has_at(t, re + 1, issues_segment()));
        assert(t.subrange(re + 1, re + 6) =~= pull_segment());
    }
    assert(number_start(t, re + 1) == ds);
    assert forall|j: int| ds <= j < t.len() implies is_unicode_decimal(#[trigger] t[j]) by {
        assert(t[j] == digits[j - ds]);
    }
    lemma_decimal_run_to_end(t, ds);
    assert(link_at(t, 0) == Some((oe, re, ds, t.len() as int)));
    assert(links_from(t, t.len() as int) =~= Seq::<(int, int, int, int, int)>::empty());
    assert(links(t) =~= seq![(0int, oe, re, ds, t.len() as int)]);
    assert(t.subrange(19, oe) =~= owner);
    assert(t.subrange(oe + 1, re) =~= repo);
    assert(t.subrange(ds, t.len() as int) =~= digits);
    assert(link_issues(t) =~= seq![(owner, repo, parsed_u32(digits)->0)]);
}

/// The search for `/` ends at a `/`, or at the end, and passes over no `/`.
proof fn lemma_next_slash(t: Seq<char>, j: int)
    requires
        0 <= j <= t.len(),
    ensures
        j <= next_slash(t, j) <= t.len(),
        next_slash(t, j) < t.len() ==> t[next_slash(t, j)] == '/',
        forall|m: int| j <= m < next_slash(t, j) ==> #[trigger] t[m] != '/',
    decreases t.len() - j,
{
    if 0 <= j < t.len() && t[j] != '/' {
        lemma_next_slash(t, j + 1);
    }
}

/// A run of `\d` characters holds only such characters and stops before
/// the first character that is not one, or at the end.
proof fn lemma_decimal_run(t: Seq<char>, j: int)
    requires
        0 <= j <= t.len(),
    ensures
        j <= decimal_run_end(t, j) <= t.len(),
        decimal_run_end(t, j) < t.len() ==> !is_unicode_decimal(t[decimal_run_end(t, j)]),
        forall|m: int| j <= m < decimal_run_end(t, j) ==> is_unicode_decimal(#[trigger] t[m]),
    decreases t.len() - j,
{
    if 0 <= j < t.len() && is_unicode_decimal(t[j]) {
        lemma_decimal_run(t, j + 1);
    }
}

/// Where the search for the `k`-th link of a search from `i` started: at
/// `i` for the first, after the end of the link before for the others.
pub open spec fn search_start(
    spans: Seq<(int, int, int, int, int)>,
    k: int,
    i: int,
) -> int {
    if k == 0 {
        i
    } else {
        spans[k - 1].4
    }
}

/// Each link found from `i` on starts where `link_at` finds one, at or
/// after the end of the link before, and no link starts between the two.
proof fn lemma_links_from_spans(t: Seq<char>, i: int)
    requires
        0 <= i,
    ensures
        forall|k: int|
            0 <= k < links_from(t, i).len() ==> {
                let span = #[trigger] links_from(t, i)[k];
                &&& search_start(links_from(t, i), k, i) <= span.0
                &&& 0 <= span.0
                &&& link_at(t, span.0) == Some((span.1, span.2, span.3, span.4))
                &&& forall|m: int|
                    search_start(links_from(t, i), k, i) <= m < span.0 ==> link_at(t, m) is None
            },
    decreases t.len() - i,
{
    if 0 <= i < t.len() {
        match link_at(t, i) {
            Some((oe, re, ds, de)) => {
                lemma_link_at_bounds(t, i);
                lemma_links_from_spans(t, de);
                let rest = links_from(t, de);
                let all = links_from(t, i);
                assert(all == seq![(i, oe, re, ds, de)] + rest);
                assert forall|k: int| 0 <= k < all.len() implies {
                    let span = #[trigger] all[k];
                    &&& search_start(all, k, i) <= span.0
                    &&& 0 <= span.0
                    &&& link_at(t, span.0) == Some((span.1, span.2, span.3, span.4))
                    &&& forall|m: int| search_start(all, k, i) <= m < span.0 ==> link_at(t, m) is None
                } by {
                    if k > 0 {
                        assert(all[k] == rest[k - 1]);
                        assert(search_start(all, k, i) == search_start(rest, k - 1, de));
                    }
                }
            },
            None => {
                lemma_links_from_spans(t, i + 1);
                let all = links_from(t, i);
                assert(all == links_from(t, i + 1));
                assert forall|k: int| 0 <= k < all.len() implies {
                    let span = #[trigger] all[k];
                    &&& search_start(all, k, i) <= span.0
                    &&& 0 <= span.0
                    &&& link_at(t, span.0) == Some((span.1, span.2, span.3, span.4))
                    &&& forall|m: int| search_start(all, k, i) <= m < span.0 ==> link_at(t, m) is None
                } by {
                    if k == 0 {
                        assert(search_start(all, 0, i + 1) == i + 1);
                    }
                }
            },
        }
    }
}

/// No link starts after the end of the last link found from `i` (or after
/// `i`, when none is found).
proof fn lemma_links_from_tail(t: Seq<char>, i: int)
    requires
        0 <= i,
    ensures
        forall|m: int|
            search_start(links_from(t, i), links_from(t, i).len() as int, i) <= m < t.len()
                ==> link_at(t, m) is None,
    decreases t.len() - i,
{
    if 0 <= i < t.len() {
        match link_at(t, i) {
            Some((oe, re, ds, de)) => {
                lemma_link_at_bounds(t, i);
                lemma_links_from_tail(t, de);
                let rest = links_from(t, de);
                let all = links_from(t, i);
                assert(all == seq![(i, oe, re, ds, de)] + rest);
                if rest.len() > 0 {
                    assert(all[all.len() - 1] == rest[rest.len() - 1]);
                }
            },
            None => {
                lemma_links_from_tail(t, i + 1);
                assert(links_from(t, i) == links_from(t, i + 1));
            },
        }
    }
}

/// The shape of the `k`-th link of `t` (see `law_links_shape`).
proof fn lemma_link_shape_at(t: Seq<char>, k: int)
    requires
        0 <= k < links(t).len(),
    ensures
        ({
            let s = links(t)[k];
            &&& 0 <= s.0
            &&& s.0 + 19 < s.1 < s.2 < s.3 < s.4 <= t.len()
            &&& t.subrange(s.0, s.0 + 14) == seq![
                'h', 't', 't', 'p', 's', ':', '/', '/', 'g', 'i', 't', 'h', 'u', 'b',
            ]
            &&& t[s.0 + 14] != '\n'
            &&& t.subrange(s.0 + 15, s.0 + 19) == seq!['c', 'o', 'm', '/']
            &&& t[s.1] == '/'
            &&& t[s.2] == '/'
            &&& forall|m: int| s.0 + 19 <= m < s.1 ==> t[m] != '/'
            &&& forall|m: int| s.1 + 1 <= m < s.2 ==> t[m] != '/'
            &&& s.1 + 1 < s.2
            &&& (t.subrange(s.2 + 1, s.3) == seq!['i', 's', 's', 'u', 'e', 's', '/']
                || t.subrange(s.2 + 1, s.3) == seq!['p', 'u', 'l', 'l', '/'])
            &&& forall|m: int| s.3 <= m < s.4 ==> is_unicode_decimal(t[m])
            &&& s.4 < t.len() ==> !is_unicode_decimal(t[s.4])
            &&& link_issues(t)[k].0 == t.subrange(s.0 + 19, s.1)
            &&& link_issues(t)[k].1 == t.subrange(s.1 + 1, s.2)
            &&& link_numbers_fit(t) ==> all_ascii_digits(t.subrange(s.3, s.4))
                && link_issues(t)[k].2 as nat == decimal_value(t.subrange(s.3, s.4))
            &&& forall|m: int| search_start(links(t), k, 0) <= m < s.0 ==> link_at(t, m) is None
        }),
{
    lemma_links_from_spans(t, 0);
    let s = links(t)[k];
    let i = s.0;
    assert(link_at(t, i) == Some((s.1, s.2, s.3, s.4)));
    lemma_link_at_bounds(t, i);
    lemma_next_slash(t, i + 19);
    lemma_next_slash(t, s.1 + 1);
    lemma_decimal_run(t, s.3);
    assert(t.subrange(i, i + 14) == scheme_and_host());
    assert(t.subrange(i + 15, i + 19) == top_level_domain());
    if has_at(t, s.2 + 1, issues_segment()) {
        assert(t.subrange(s.2 + 1, s.3) == issues_segment());
    } else {
        assert(t.subrange(s.2 + 1, s.3) == pull_segment());
    }
    assert(link_issues(t)[k] == link_issue(t, s));
    if link_numbers_fit(t) {
        assert(link_number_fits(t, links(t)[k]));
    }
}

/// Every link that `links` finds has the shape of a GitHub issue or pull
/// request link, and its issue is what the link spells: it starts with
/// `https://github`, then any character but a line feed, then `com/`; the
/// owner is a non-empty run without `/` ended by `/`; so is the repository;
/// then `issues/` or `pull/`; then the longest non-empty run of `\d`
/// characters. The issue is the owner, the repository, and, when every
/// number of the text can be read, the value of the digits. Links come
/// left to right without overlapping, and no link starts between two found
/// ones or after the last.
pub proof fn law_links_shape(t: Seq<char>)
    ensures
        forall|k: int|
            0 <= k < links(t).len() ==> {
                let s = #[trigger] links(t)[k];
                &&& 0 <= s.0
                &&& s.0 + 19 < s.1 < s.2 < s.3 < s.4 <= t.len()
                &&& t.subrange(s.0, s.0 + 14) == seq![
                    'h', 't', 't', 'p', 's', ':', '/', '/', 'g', 'i', 't', 'h', 'u', 'b',
                ]
                &&& t[s.0 + 14] != '\n'
                &&& t.subrange(s.0 + 15, s.0 + 19) == seq!['c', 'o', 'm', '/']
                &&& t[s.1] == '/'
                &&& t[s.2] == '/'
                &&& forall|m: int| s.0 + 19 <= m < s.1 ==> t[m] != '/'
                &&& forall|m: int| s.1 + 1 <= m < s.2 ==> t[m] != '/'
                &&& s.1 + 1 < s.2
                &&& (t.subrange(s.2 + 1, s.3) == seq!['i', 's', 's', 'u', 'e', 's', '/']
                    || t.subrange(s.2 + 1, s.3) == seq!['p', 'u', 'l', 'l', '/'])
                &&& forall|m: int| s.3 <= m < s.4 ==> is_unicode_decimal(t[m])
                &&& s.4 < t.len() ==> !is_unicode_decimal(t[s.4])
                &&& link_issues(t)[k].0 == t.subrange(s.0 + 19, s.1)
                &&& link_issues(t)[k].1 == t.subrange(s.1 + 1, s.2)
                &&& link_numbers_fit(t) ==> all_ascii_digits(t.subrange(s.3, s.4))
                    && link_issues(t)[k].2 as nat == decimal_value(t.subrange(s.3, s.4))
                &&& forall|m: int|
                    search_start(links(t), k, 0) <= m < s.0 ==> link_at(t, m) is None
            },
        forall|m: int|
            search_start(links(t), links(t).len() as int, 0) <= m < t.len() ==> link_at(t, m)
                is None,
{
    lemma_links_from_tail(t, 0);
    assert forall|k: int| 0 <= k < links(t).len() implies {
        let s = #[trigger] links(t)[k];
        &&& 0 <= s.0
        &&& s.0 + 19 < s.1 < s.2 < s.3 < s.4 <= t.len()
        &&& t.subrange(s.0, s.0 + 14) == seq![
            'h', 't', 't', 'p', 's', ':', '/', '/', 'g', 'i', 't', 'h', 'u', 'b',
        ]
        &&& t[s.0 + 14] != '\n'
        &&& t.subrange(s.0 + 15, s.0 + 19) == seq!['c', 'o', 'm', '/']
        &&& t[s.1] == '/'
        &&& t[s.2] == '/'
        &&& forall|m: int| s.0 + 19 <= m < s.1 ==> t[m] != '/'
        &&& forall|m: int| s.1 + 1 <= m < s.2 ==> t[m] != '/'
        &&& s.1 + 1 < s.2
        &&& (t.subrange(s.2 + 1, s.3) == seq!['i', 's', 's', 'u', 'e', 's', '/']
            || t.subrange(s.2 + 1, s.3) == seq!['p', 'u', 'l', 'l', '/'])
        &&& forall|m: int| s.3 <= m < s.4 ==> is_unicode_decimal(t[m])
        &&& s.4 < t.len() ==> !is_unicode_decimal(t[s.4])
        &&& link_issues(t)[k].0 == t.subrange(s.0 + 19, s.1)
        &&& link_issues(t)[k].1 == t.subrange(s.1 + 1, s.2)
        &&& link_numbers_fit(t) ==> all_ascii_digits(t.subrange(s.3, s.4))
            && link_issues(t)[k].2 as nat == decimal_value(t.subrange(s.3, s.4))
        &&& forall|m: int| search_start(links(t), k, 0) <= m < s.0 ==> link_at(t, m) is None
    } by {
        lemma_link_shape_at(t, k);
    }
}

/// Whether `lit` stands in `t` at `i`.
pub(crate) fn lit_at(t: &Vec<char>, i: usize, lit: &[char]) -> (r: bool)
    ensures
        r == has_at(t@, i as int, lit@),
{
    if i > t.len() || lit.len() > t.len() - i {
        return false;
    }
    let mut k: usize = 0;
    while k < lit.len()
        invariant
            i + lit@.len() <= t@.len(),
            k <= lit@.len(),
            lit.len() == lit@.len(),
            t.len() == t@.len(),
            forall|j: int| 0 <= j < k ==> t@[i + j] == lit@[j],
        decreases lit.len() - k,
    {
        if t[i + k] != lit[k] {
            assert(t@.subrange(i as int, i + lit@.len())[k as int] != lit@[k as int]);
            return false;
        }
        k = k + 1;
    }
    assert(t@.subrange(i as int, i + lit@.len()) =~= lit@);
    true
}

/// The first `/` at or after `j`, or the length.
fn find_slash(t: &Vec<char>, j: usize) -> (r: usize)
    requires
        j <= t.len(),
    ensures
        r as int == next_slash(t@, j as int),
{
    let mut k = j;
    while k < t.len() && t[k] != '/'
        invariant
            j <= k <= t.len(),
            next_slash(t@, j as int) == next_slash(t@, k as int),
        decreases t.len() - k,
    {
        k = k + 1;
    }
    k
}

/// The end of the run of `\d` characters that starts at `j`.
fn find_decimal_run_end(t: &Vec<char>, j: usize) -> (r: usize)
    requires
        j <= t.len(),
    ensures
        r as int == decimal_run_end(t@, j as int),
        j <= r <= t.len(),
{
    let mut k = j;
    while k < t.len() && is_decimal_char(t[k])
        invariant
            j <= k <= t.len(),
            decimal_run_end(t@, j as int) == decimal_run_end(t@, k as int),
        decreases t.len() - k,
    {
        k = k + 1;
    }
    k
}

/// The link that starts at `i`, if one does (see `link_at`).
pub fn find_link_at(t: &Vec<char>, i: usize) -> (r: Option<(usize, usize, usize, usize)>)
    requires
        i < t.len(),
    ensures
        match r {
            Some((oe, re, ds, de)) => {
                &&& link_at(t@, i as int) == Some((oe as int, re as int, ds as int, de as int))
                &&& i + 19 < oe < re < ds < de <= t.len()
            },
            None => link_at(t@, i as int) is None,
        },
{
    let scheme = ['h', 't', 't', 'p', 's', ':', '/', '/', 'g', 'i', 't', 'h', 'u', 'b'];
    let tld = ['c', 'o', 'm', '/'];
    let issues = ['i', 's', 's', 'u', 'e', 's', '/'];
    let pull = ['p', 'u', 'l', 'l', '/'];
    assert(scheme@ =~= scheme_and_host());
    assert(tld@ =~= top_level_domain());
    assert(issues@ =~= issues_segment());
    assert(pull@ =~= pull_segment());
    if !lit_at(t, i, &scheme) {
        return None;
    }
    if i + 14 >= t.len() || t[i + 14] == '\n' || !lit_at(t, i + 15, &tld) {
        return None;
    }
    let owner_start = i + 19;
    let owner_end = find_slash(t, owner_start);
    if !(owner_start < owner_end && owner_end < t.len()) {
        return None;
    }
    let repo_end = find_slash(t, owner_end + 1);
    if !(owner_end + 1 < repo_end && repo_end < t.len()) {
        return None;
    }
    let k = repo_end + 1;
    let ds: usize;
    if lit_at(t, k, &issues) {
        ds = k + 7;
    } else if lit_at(t, k, &pull) {
        ds = k + 5;
    } else {
        return None;
    }
    let de = find_decimal_run_end(t, ds);
    if de > ds {
        Some((owner_end, repo_end, ds, de))
    } else {
        None
    }
}

} // verus!

//! The tracking section of an RFC's markdown: where it starts and ends,
//! and the tracking issues it links to.

use vstd::prelude::*;
use crate::links::{link_issues, link_numbers_fit};
use crate::markdown::{events_view, markdown_events, parse_markdown, MdEvent, MdEventModel};
use crate::text::chars_of;
use super::{issues_view, Issue, Rfc};

verus! {

/// `c` equals the letter `p` when case is ignored, as the `regex` crate's
/// `(?i)` compares them (Unicode simple case folding, under which `s` and
/// `S` also match the long s `ſ`). `p` is one of the characters of
/// `Rust Issue`, written in lower case.
pub open spec fn matches_ignoring_case(c: char, p: char) -> bool {
    if p == 's' {
        c == 's' || c == 'S' || c == '\u{17f}'
    } else if p == 'r' {
        c == 'r' || c == 'R'
    } else if p == 'u' {
        c == 'u' || c == 'U'
    } else if p == 't' {
        c == 't' || c == 'T'
    } else if p == 'i' {
        c == 'i' || c == 'I'
    } else if p == 'e' {
        c == 'e' || c == 'E'
    } else {
        c == p
    }
}

/// `rust issue`
pub open spec fn tracking_marker() -> Seq<char> {
    seq!['r', 'u', 's', 't', ' ', 'i', 's', 's', 'u', 'e']
}

/// The text `t` starts with `Rust Issue` in any case (the pattern
/// `(?i)^Rust Issue`).
pub open spec fn starts_with_tracking_marker(t: Seq<char>) -> bool {
    &&& t.len() >= 10
    &&& forall|k: int| 0 <= k < 10 ==> #[trigger] matches_ignoring_case(t[k], tracking_marker()[k])
}

/// The event is text that starts with `Rust Issue`.
pub open spec fn is_marker_event(e: MdEventModel) -> bool {
    e matches MdEventModel::Text(t) && starts_with_tracking_marker(t)
}

/// The first position at or after `i` that holds a marker event, or the
/// length of `evs`.
pub open spec fn marker_index(evs: Seq<MdEventModel>, i: int) -> int
    decreases evs.len() - i,
{
    if 0 <= i < evs.len() && !is_marker_event(evs[i]) {
        marker_index(evs, i + 1)
    } else if 0 <= i < evs.len() {
        i
    } else {
        evs.len() as int
    }
}

/// The next header start is never before `i`.
proof fn lemma_header_index_at_least(evs: Seq<MdEventModel>, i: int)
    requires
        0 <= i,
    ensures
        i <= header_index(evs, i) || i > evs.len(),
        header_index(evs, i) <= evs.len(),
    decreases evs.len() - i,
{
    if 0 <= i < evs.len() && !(evs[i] is HeaderStart) {
        lemma_header_index_at_least(evs, i + 1);
    }
}

/// The first position at or after `i` that holds the start of a header, or
/// the length of `evs`.
pub open spec fn header_index(evs: Seq<MdEventModel>, i: int) -> int
    decreases evs.len() - i,
{
    if 0 <= i < evs.len() && !(evs[i] is HeaderStart) {
        header_index(evs, i + 1)
    } else if 0 <= i < evs.len() {
        i
    } else {
        evs.len() as int
    }
}

/// Where the tracking section of an RFC starts: at the first text that
/// starts with `Rust Issue`, after a header that opens the document.
pub open spec fn section_start(evs: Seq<MdEventModel>) -> int {
    if evs.len() > 0 && evs[0] is HeaderStart {
        marker_index(evs, 1)
    } else {
        marker_index(evs, 0)
    }
}

/// Where the tracking section ends: at the next start of a header.
pub open spec fn section_end(evs: Seq<MdEventModel>) -> int {
    header_index(evs, section_start(evs))
}

/// The tracking issues that one event names: those linked in its text, or
/// in its destination when it starts a link.
pub open spec fn event_issues(e: MdEventModel) -> Seq<(Seq<char>, Seq<char>, u32)> {
    match e {
        MdEventModel::Text(t) => link_issues(t),
        MdEventModel::LinkStart(d) => link_issues(d),
        _ => seq![],
    }
}

/// The numbers of all links in the event can be read as `u32`.
pub open spec fn event_numbers_fit(e: MdEventModel) -> bool {
    match e {
        MdEventModel::Text(t) => link_numbers_fit(t),
        MdEventModel::LinkStart(d) => link_numbers_fit(d),
        _ => true,
    }
}

/// The tracking issues that the events at positions `a` to `b` name, in
/// order.
pub open spec fn issues_between(evs: Seq<MdEventModel>, a: int, b: int) -> Seq<
    (Seq<char>, Seq<char>, u32),
>
    decreases b - a,
{
    if a < b {
        issues_between(evs, a, b - 1) + event_issues(evs[b - 1])
    } else {
        seq![]
    }
}

/// The tracking issues of an RFC whose markdown gives the events `evs`.
pub open spec fn section_issues(evs: Seq<MdEventModel>) -> Seq<(Seq<char>, Seq<char>, u32)> {
    issues_between(evs, section_start(evs), section_end(evs))
}

/// Every link in the tracking section has a number that fits in a `u32`
/// (otherwise reading it fails).
pub open spec fn section_numbers_fit(evs: Seq<MdEventModel>) -> bool {
    forall|j: int|
        section_start(evs) <= j < section_end(evs) ==> #[trigger] event_numbers_fit(evs[j])
}

/// A text opens the tracking section exactly when its first ten characters
/// are, one by one, the lower- or upper-case letters of `Rust Issue` (the
/// long s `ſ` standing for an `s` too), with a space in the middle.
pub proof fn law_marker_ignores_case(t: Seq<char>)
    ensures
        starts_with_tracking_marker(t) <==> (t.len() >= 10 && forall|k: int|
            0 <= k < 10 ==> (#[trigger] t[k] == seq!['r', 'u', 's', 't', ' ', 'i', 's', 's', 'u', 'e'][k]
                || t[k] == seq!['R', 'U', 'S', 'T', ' ', 'I', 'S', 'S', 'U', 'E'][k] || (seq![
                'r', 'u', 's', 't', ' ', 'i', 's', 's', 'u', 'e',
            ][k] == 's' && t[k] == '\u{17f}'))),
{
    let lower = seq!['r', 'u', 's', 't', ' ', 'i', 's', 's', 'u', 'e'];
    let upper = seq!['R', 'U', 'S', 'T', ' ', 'I', 'S', 'S', 'U', 'E'];
    assert(tracking_marker() == lower);
    assert forall|k: int| 0 <= k < 10 && t.len() >= 10 implies (matches_ignoring_case(
        t[k],
        tracking_marker()[k],
    ) <==> (t[k] == lower[k] || t[k] == upper[k] || (lower[k] == 's' && t[k] == '\u{17f}'))) by {
        if k == 0 {
        } else if k == 1 {
        } else if k == 2 {
        } else if k == 3 {
        } else if k == 4 {
        } else if k == 5 {
        } else if k == 6 {
        } else if k == 7 {
        } else if k == 8 {
        } else {
        }
    }
}

/// The tracking issues that the events from `a` to `c` name are those of
/// the events from `a` to `b` followed by those of the events from `b` to
/// `c`: every event of a stretch counts, wherever it stands in it.
pub proof fn law_issues_between_split(evs: Seq<MdEventModel>, a: int, b: int, c: int)
    requires
        a <= b <= c,
    ensures
        issues_between(evs, a, c) == issues_between(evs, a, b) + issues_between(evs, b, c),
    decreases c - b,
{
    if b < c {
        law_issues_between_split(evs, a, b, c - 1);
        assert(issues_between(evs, a, b) + issues_between(evs, b, c - 1) + event_issues(evs[c - 1])
            =~= issues_between(evs, a, b) + (issues_between(evs, b, c - 1) + event_issues(
            evs[c - 1],
        )));
    } else {
        assert(issues_between(evs, a, b) + issues_between(evs, b, c) =~= issues_between(evs, a, b));
    }
}

/// A single event names the issues linked in its text, or in its
/// destination when it starts a link, and nothing when it is a header start
/// or any other event.
pub proof fn law_issues_of_one_event(evs: Seq<MdEventModel>, b: int)
    requires
        0 <= b < evs.len(),
    ensures
        issues_between(evs, b, b + 1) == match evs[b] {
            MdEventModel::Text(t) => link_issues(t),
            MdEventModel::LinkStart(d) => link_issues(d),
            MdEventModel::HeaderStart => Seq::<(Seq<char>, Seq<char>, u32)>::empty(),
            MdEventModel::Other => Seq::<(Seq<char>, Seq<char>, u32)>::empty(),
        },
{
    assert(issues_between(evs, b, b) =~= Seq::<(Seq<char>, Seq<char>, u32)>::empty());
    assert(issues_between(evs, b, b + 1) =~= issues_between(evs, b, b) + event_issues(evs[b]));
}

/// The marker search ends at a marker, or at the end, and passes over no
/// marker on the way.
proof fn lemma_marker_index(evs: Seq<MdEventModel>, i: int)
    requires
        0 <= i,
    ensures
        i <= marker_index(evs, i) <= evs.len() || (i > evs.len() && marker_index(evs, i)
            == evs.len()),
        marker_index(evs, i) < evs.len() ==> is_marker_event(evs[marker_index(evs, i)]),
        forall|j: int| i <= j < marker_index(evs, i) ==> !is_marker_event(#[trigger] evs[j]),
    decreases evs.len() - i,
{
    if 0 <= i < evs.len() && !is_marker_event(evs[i]) {
        lemma_marker_index(evs, i + 1);
    }
}

/// The header search ends at a header start, or at the end, and passes
/// over no header start on the way.
proof fn lemma_header_index(evs: Seq<MdEventModel>, i: int)
    requires
        0 <= i <= evs.len(),
    ensures
        i <= header_index(evs, i) <= evs.len(),
        header_index(evs, i) < evs.len() ==> evs[header_index(evs, i)] is HeaderStart,
        forall|j: int| i <= j < header_index(evs, i) ==> !(#[trigger] evs[j] is HeaderStart),
    decreases evs.len() - i,
{
    if 0 <= i < evs.len() && !(evs[i] is HeaderStart) {
        lemma_header_index(evs, i + 1);
    }
}

/// The tracking section is where the text says it is: it starts at the
/// first text that begins with `Rust Issue` (a header that opens the
/// document is passed over), or is empty at the end when there is none;
/// it holds no header start; and it ends at the next header start or at
/// the end of the events.
pub proof fn law_section_bounds(evs: Seq<MdEventModel>)
    ensures
        ({
            let first: int = if evs.len() > 0 && evs[0] is HeaderStart { 1 } else { 0 };
            let s = section_start(evs);
            let e = section_end(evs);
            &&& first <= s <= e <= evs.len()
            &&& s < evs.len() ==> is_marker_event(evs[s])
            &&& forall|j: int| first <= j < s ==> !is_marker_event(#[trigger] evs[j])
            &&& forall|j: int| s <= j < e ==> !(#[trigger] evs[j] is HeaderStart)
            &&& e < evs.len() ==> evs[e] is HeaderStart
        }),
{
    let first: int = if evs.len() > 0 && evs[0] is HeaderStart { 1 } else { 0 };
    lemma_marker_index(evs, first);
    lemma_header_index(evs, section_start(evs));
}

/// Whether `text` starts with `Rust Issue`, in any case.
fn is_tracking_marker(text: &String) -> (r: bool)
    ensures
        r == starts_with_tracking_marker(text@),
{
    let t = chars_of(text.as_str());
    if t.len() < 10 {
        return false;
    }
    let pattern = ['r', 'u', 's', 't', ' ', 'i', 's', 's', 'u', 'e'];
    assert(pattern@ =~= tracking_marker());
    let mut k: usize = 0;
    while k < 10
        invariant
            k <= 10 <= t.len(),
            t@ == text@,
            pattern@ == tracking_marker(),
            forall|m: int| 0 <= m < k ==> #[trigger] matches_ignoring_case(t@[m], tracking_marker()[m]),
        decreases 10 - k,
    {
        let c = t[k];
        let p = pattern[k];
        let ok = if p == 's' {
            c == 's' || c == 'S' || c == '\u{17f}'
        } else if p == 'r' {
            c == 'r' || c == 'R'
        } else if p == 'u' {
            c == 'u' || c == 'U'
        } else if p == 't' {
            c == 't' || c == 'T'
        } else if p == 'i' {
            c == 'i' || c == 'I'
        } else if p == 'e' {
            c == 'e' || c == 'E'
        } else {
            c == p
        };
        if !ok {
            assert(!matches_ignoring_case(t@[k as int], tracking_marker()[k as int]));
            return false;
        }
        k = k + 1;
    }
    true
}

/// The event is text that starts with `Rust Issue`.
fn is_marker(event: &MdEvent) -> (r: bool)
    ensures
        r == is_marker_event(event@),
{
    match event {
        MdEvent::Text(t) => is_tracking_marker(t),
        _ => false,
    }
}

/// The event starts a header.
fn is_header_start(event: &MdEvent) -> (r: bool)
    ensures
        r == (event@ is HeaderStart),
{
    match event {
        MdEvent::HeaderStart => true,
        _ => false,
    }
}

impl Rfc {
    /// The tracking issues named in the tracking section of an RFC whose
    /// markdown gives the events `events`: a header that opens the document
    /// is passed over; the section starts at the first text that starts
    /// with `Rust Issue` (in any case) and ends before the next header; the
    /// links in its texts and link destinations are read in order.
    pub fn issues_from_events(events: &Vec<MdEvent>) -> (r: Vec<Issue>)
        requires
            section_numbers_fit(events_view(events@)),
        ensures
            issues_view(r@) == section_issues(events_view(events@)),
    {
        match Rfc::try_issues_from_events(events) {
            Some(v) => v,
            None => Vec::new(),
        }
    }

    /// As `issues_from_events`, or `None` when the number of a link in the
    /// tracking section cannot be read as a `u32`.
    pub fn try_issues_from_events(events: &Vec<MdEvent>) -> (r: Option<Vec<Issue>>)
        ensures
            match r {
                Some(v) => section_numbers_fit(events_view(events@)) && issues_view(v@)
                    == section_issues(events_view(events@)),
                None => !section_numbers_fit(events_view(events@)),
            },
    {
        let ghost evs = events_view(events@);
        let n = events.len();
        let mut i: usize = 0;
        if n > 0 {
            if let MdEvent::HeaderStart = events[0] {
                i = 1;
            }
        }
        let ghost first = i as int;
        assert(section_start(evs) == marker_index(evs, first));
        while i < n && !is_marker(&events[i])
            invariant
                n == events.len() == evs.len(),
                evs == events_view(events@),
                i <= n,
                marker_index(evs, first) == marker_index(evs, i as int),
            decreases n - i,
        {
            assert(evs[i as int] == events@[i as int]@);
            i = i + 1;
        }
        assert(i < n ==> evs[i as int] == events@[i as int]@);
        assert(section_start(evs) == i);
        let start = i;
        let mut out: Vec<Issue> = Vec::new();
        while i < n && !is_header_start(&events[i])
            invariant
                n == events.len() == evs.len(),
                evs == events_view(events@),
                start <= i <= n,
                header_index(evs, start as int) == header_index(evs, i as int),
                section_start(evs) == start,
                forall|j: int| start <= j < i ==> #[trigger] event_numbers_fit(evs[j]),
                issues_view(out@) == issues_between(evs, start as int, i as int),
            decreases n - i,
        {
            assert(evs[i as int] == events@[i as int]@);
            assert(section_end(evs) == header_index(evs, i as int));
            proof {
                lemma_header_index_at_least(evs, i + 1);
            }
            assert(i < header_index(evs, i as int));
            let found_opt = match &events[i] {
                MdEvent::Text(t) => Issue::try_from_text(t.as_str()),
                MdEvent::LinkStart(d) => Issue::try_from_text(d.as_str()),
                _ => Some(Vec::new()),
            };
            let mut found = match found_opt {
                Some(v) => v,
                None => {
                    assert(!event_numbers_fit(evs[i as int]));
                    return None;
                },
            };
            assert(event_numbers_fit(evs[i as int]));
            assert(issues_view(found@) == event_issues(evs[i as int]));
            let ghost before = out@;
            out.append(&mut found);
            assert(issues_view(out@) =~= issues_view(before) + event_issues(evs[i as int]));
            i = i + 1;
        }
        assert(section_end(evs) == i);
        Some(out)
    }

    /// The tracking issues that the markdown of an RFC links to in its
    /// tracking section (see `issues_from_events`), as `pulldown_cmark`
    /// parses the markdown; `None` when the number of one of those links
    /// cannot be read as a `u32`.
    pub fn parse_issues(data: &str) -> (r: Option<Vec<Issue>>)
        ensures
            match r {
                Some(v) => section_numbers_fit(markdown_events(data@)) && issues_view(v@)
                    == section_issues(markdown_events(data@)),
                None => !section_numbers_fit(markdown_events(data@)),
            },
    {
        let events = parse_markdown(data);
        Rfc::try_issues_from_events(&events)
    }
}

} // verus!

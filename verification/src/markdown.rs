//! Markdown as the library reads it: the stream of events that the
//! `pulldown_cmark` parser produces, reduced to what tracking-issue
//! extraction looks at.

use vstd::prelude::*;
use pulldown_cmark::{Event, Parser, Tag};

verus! {

/// One event of the markdown parser, as far as the library tells events
/// apart.
#[derive(Debug, PartialEq, Eq)]
pub enum MdEvent {
    /// The start of a header (`Start(Header(_))`).
    HeaderStart,
    /// A run of text (`Text(_)`).
    Text(String),
    /// The start of a link, with its destination (`Start(Link(dest, _))`).
    LinkStart(String),
    /// Any other event.
    Other,
}

/// The mathematical value of an `MdEvent`.
pub enum MdEventModel {
    HeaderStart,
    Text(Seq<char>),
    LinkStart(Seq<char>),
    Other,
}

impl View for MdEvent {
    type V = MdEventModel;

    open spec fn view(&self) -> MdEventModel {
        match self {
            MdEvent::HeaderStart => MdEventModel::HeaderStart,
            MdEvent::Text(t) => MdEventModel::Text(t@),
            MdEvent::LinkStart(d) => MdEventModel::LinkStart(d@),
            MdEvent::Other => MdEventModel::Other,
        }
    }
}

/// The views of a sequence of events.
pub open spec fn events_view(v: Seq<MdEvent>) -> Seq<MdEventModel> {
    v.map_values(|e: MdEvent| e@)
}

/// The events that `pulldown_cmark::Parser::new` produces on the markdown
/// text `text`, reduced to `MdEventModel`.
pub uninterp spec fn markdown_events(text: Seq<char>) -> Seq<MdEventModel>;

/// Runs `pulldown_cmark::Parser::new(text)` to its end and reduces each
/// event to an `MdEvent`, one arm per kind of event. The contract claims that
/// the events are `markdown_events(text)`, a function of the text alone (the
/// parser keeps no state beyond the text, and its default options are
/// fixed). Which events a text gives is left unsaid: that is the CommonMark
/// grammar as that version of the crate implements it.
#[verifier::external_body]
pub fn parse_markdown(text: &str) -> (events: Vec<MdEvent>)
    ensures
        events_view(events@) == markdown_events(text@),
{
    Parser::new(text).map(|event| match event {
        Event::Start(Tag::Header(_)) => MdEvent::HeaderStart,
        Event::Text(text) => MdEvent::Text(text.into_owned()),
        Event::Start(Tag::Link(dest, _)) => MdEvent::LinkStart(dest.into_owned()),
        _ => MdEvent::Other,
    }).collect()
}

} // verus!

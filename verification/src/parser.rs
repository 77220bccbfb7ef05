//! Markdown parsing into the events the library reads, via `pulldown_cmark`.
use vstd::prelude::*;
use pulldown_cmark::{Event, Options, Parser, Tag};

verus! {

/// The element an [`MdEvent::Start`] opens, as far as the library reads it.
#[derive(Debug, Clone, PartialEq, Eq)]
pub enum MdTag {
    /// A link, with its destination and its (possibly empty) title.
    Link { url: String, title: String },
    /// Any other element.
    Other,
}

/// A Markdown parse event, as far as the library reads it.
#[derive(Debug, Clone, PartialEq, Eq)]
pub enum MdEvent {
    /// Start of an element.
    Start(MdTag),
    /// End of an element.
    End,
    /// A text node.
    Text(String),
    /// Any other event (code, HTML, breaks, rules, ...).
    Other,
}

pub enum MdTagView {
    Link { url: Seq<char>, title: Seq<char> },
    Other,
}

pub enum MdEventView {
    Start(MdTagView),
    End,
    Text(Seq<char>),
    Other,
}

impl View for MdTag {
    type V = MdTagView;

    open spec fn view(&self) -> MdTagView {
        match self {
            MdTag::Link { url, title } => MdTagView::Link { url: url@, title: title@ },
            MdTag::Other => MdTagView::Other,
        }
    }
}

impl View for MdEvent {
    type V = MdEventView;

    open spec fn view(&self) -> MdEventView {
        match self {
            MdEvent::Start(t) => MdEventView::Start(t@),
            MdEvent::End => MdEventView::End,
            MdEvent::Text(s) => MdEventView::Text(s@),
            MdEvent::Other => MdEventView::Other,
        }
    }
}

impl DeepView for MdEvent {
    type V = MdEventView;

    open spec fn deep_view(&self) -> MdEventView {
        self@
    }
}

/// `pulldown_cmark::Options::ENABLE_TABLES`.
pub const ENABLE_TABLES: u32 = 2;

/// `pulldown_cmark::Options::ENABLE_FOOTNOTES`.
pub const ENABLE_FOOTNOTES: u32 = 4;

/// `pulldown_cmark::Options::ENABLE_STRIKETHROUGH`.
pub const ENABLE_STRIKETHROUGH: u32 = 8;

/// `pulldown_cmark::Options::ENABLE_TASKLISTS`.
pub const ENABLE_TASKLISTS: u32 = 16;

/// The events `pulldown_cmark::Parser::new_ext` yields for a text and
/// option bits, as the library reads them.
pub uninterp spec fn markdown_events_of(text: Seq<char>, options: u32) -> Seq<MdEventView>;

/// Runs `pulldown_cmark::Parser::new_ext(text, Options::from_bits_truncate(options))`
/// and keeps of each event what the library reads: the destination and title
/// of a link start, the content of a text node, and the kind of the rest.
/// The contract names the result; it says nothing of how Markdown parses.
#[verifier::external_body]
pub(crate) fn parser_events(text: &str, options: u32) -> (r: Vec<MdEvent>)
    ensures
        r.deep_view() == markdown_events_of(text@, options),
{
    let mut out = Vec::new();
    for event in Parser::new_ext(text, Options::from_bits_truncate(options)) {
        out.push(match event {
            Event::Start(Tag::Link { dest_url, title, .. }) => MdEvent::Start(
                MdTag::Link { url: dest_url.into_string(), title: title.into_string() },
            ),
            Event::Start(_) => MdEvent::Start(MdTag::Other),
            Event::End(_) => MdEvent::End,
            Event::Text(t) => MdEvent::Text(t.into_string()),
            _ => MdEvent::Other,
        });
    }
    out
}

/// The options `parse` enables: tables, footnotes, strikethrough, task lists.
pub open spec fn parse_options() -> u32 {
    (ENABLE_TABLES | ENABLE_FOOTNOTES | ENABLE_STRIKETHROUGH | ENABLE_TASKLISTS) as u32
}

/// Parse a Markdown string and collect all events into a `Vec`, with tables,
/// footnotes, strikethrough and task lists enabled.
pub fn parse(markdown: &str) -> (r: Vec<MdEvent>)
    ensures
        r.deep_view() == markdown_events_of(markdown@, parse_options()),
{
    let opts = ENABLE_TABLES | ENABLE_FOOTNOTES | ENABLE_STRIKETHROUGH | ENABLE_TASKLISTS;
    parser_events(markdown, opts)
}

} // verus!

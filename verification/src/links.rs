//! Wikilink and hyperlink extraction from Markdown, via `pulldown_cmark`
//! parse events.
use vstd::prelude::*;
use crate::link::{
    extract_wikilinks_from_text, wikilinks, Link, LinkView, SimpleWikilinkExtractor, WikilinkExtractor,
};
use crate::parser::{markdown_events_of, parser_events, MdEvent, MdEventView, MdTag, MdTagView};

verus! {

/// The hyperlink a link start with this destination and title stands for:
/// an empty title counts as none.
pub open spec fn hyperlink(url: Seq<char>, title: Seq<char>) -> LinkView {
    LinkView::Hyperlink { url, title: if title.len() == 0 { None } else { Some(title) } }
}

/// The links `extract_links` reads from parse events: a hyperlink for each
/// link start and the wikilinks of each text node, in event order.
pub open spec fn links_from_events(evs: Seq<MdEventView>) -> Seq<LinkView>
    decreases evs.len(),
{
    if evs.len() == 0 {
        seq![]
    } else {
        links_from_events(evs.drop_last()) + match evs.last() {
            MdEventView::Start(MdTagView::Link { url, title }) => seq![hyperlink(url, title)],
            MdEventView::Text(t) => wikilinks(t),
            _ => seq![],
        }
    }
}

/// The hyperlinks of parse events: one for each link start, in order.
pub open spec fn hyperlinks_from_events(evs: Seq<MdEventView>) -> Seq<LinkView>
    decreases evs.len(),
{
    if evs.len() == 0 {
        seq![]
    } else {
        hyperlinks_from_events(evs.drop_last()) + match evs.last() {
            MdEventView::Start(MdTagView::Link { url, title }) => seq![hyperlink(url, title)],
            _ => seq![],
        }
    }
}

/// The links `extract_links_from_str` finds in a text: its wikilinks, found
/// by scanning the raw text, then the hyperlinks that the Markdown parser
/// (no options) reports.
pub open spec fn links_of_text(text: Seq<char>) -> Seq<LinkView> {
    wikilinks(text) + hyperlinks_from_events(markdown_events_of(text, 0))
}

fn hyperlink_of(url: &String, title: &String) -> (l: Link)
    ensures
        l@ == hyperlink(url@, title@),
{
    Link::Hyperlink {
        url: url.clone(),
        title: if title.as_str().is_empty() {
            None
        } else {
            Some(title.clone())
        },
    }
}

/// Extract all links (wikilinks + hyperlinks) from a sequence of parse
/// events.
pub fn extract_links(events: Vec<MdEvent>) -> (r: Vec<Link>)
    ensures
        r.deep_view() == links_from_events(events.deep_view()),
{
    let mut links: Vec<Link> = Vec::new();
    let ghost evs = events.deep_view();
    let mut i: usize = 0;
    assert(links.deep_view() =~= links_from_events(evs.take(0)));
    while i < events.len()
        invariant
            i <= events@.len(),
            evs == events.deep_view(),
            links.deep_view() == links_from_events(evs.take(i as int)),
        decreases events.len() - i,
    {
        let ghost before = links.deep_view();
        assert(evs.take(i + 1).drop_last() =~= evs.take(i as int));
        assert(evs.take(i + 1).last() == events[i as int]@);
        match &events[i] {
            MdEvent::Start(MdTag::Link { url, title }) => {
                let l = hyperlink_of(url, title);
                links.push(l);
                assert(links.deep_view() =~= before.push(l@));
            },
            MdEvent::Text(t) => {
                extract_wikilinks_from_text(t.as_str(), &mut links);
            },
            _ => {
                assert(links.deep_view() =~= before + Seq::<LinkView>::empty());
            },
        }
        i += 1;
    }
    assert(evs.take(events@.len() as int) =~= evs);
    links
}

/// Appends to `links` the hyperlinks of parse events: one for each link
/// start, in event order.
pub fn push_hyperlinks(events: &Vec<MdEvent>, links: &mut Vec<Link>)
    ensures
        final(links).deep_view() == old(links).deep_view() + hyperlinks_from_events(
            events.deep_view(),
        ),
{
    let ghost start = links.deep_view();
    let ghost evs = events.deep_view();
    let mut i: usize = 0;
    assert(start + hyperlinks_from_events(evs.take(0)) =~= start);
    while i < events.len()
        invariant
            i <= events@.len(),
            evs == events.deep_view(),
            links.deep_view() == start + hyperlinks_from_events(evs.take(i as int)),
        decreases events.len() - i,
    {
        let ghost before = links.deep_view();
        assert(evs.take(i + 1).drop_last() =~= evs.take(i as int));
        assert(evs.take(i + 1).last() == events[i as int]@);
        match &events[i] {
            MdEvent::Start(MdTag::Link { url, title }) => {
                let l = hyperlink_of(url, title);
                links.push(l);
                assert(links.deep_view() =~= before.push(l@));
            },
            _ => {},
        }
        assert(links.deep_view() =~= start + hyperlinks_from_events(evs.take(i + 1)));
        i += 1;
    }
    assert(evs.take(events@.len() as int) =~= evs);
}

/// Convenience wrapper: parse `text` as Markdown and extract all links.
///
/// Wikilinks are extracted by scanning the raw text, because the Markdown
/// parser reads `[[` as nested link syntax; standard Markdown hyperlinks are
/// then taken from the parse events.
pub fn extract_links_from_str(text: &str) -> (r: Vec<Link>)
    ensures
        r.deep_view() == links_of_text(text@),
{
    let mut links: Vec<Link> = Vec::new();
    assert(links.deep_view() =~= Seq::<LinkView>::empty());
    extract_wikilinks_from_text(text, &mut links);
    let events = parser_events(text, 0);
    push_hyperlinks(&events, &mut links);
    links
}

/// Concrete implementation of [`WikilinkExtractor`] using `pulldown-cmark`:
/// finds both wikilinks and standard Markdown hyperlinks.
#[derive(Debug, Clone)]
pub struct PulldownWikilinkExtractor;

impl PulldownWikilinkExtractor {
    /// Create a new `PulldownWikilinkExtractor`.
    pub fn new() -> (r: Self)
        ensures
            r == PulldownWikilinkExtractor,
    {
        PulldownWikilinkExtractor
    }
}

impl Default for PulldownWikilinkExtractor {
    /// The same extractor as [`PulldownWikilinkExtractor::new`].
    fn default() -> (r: Self)
        ensures
            r == PulldownWikilinkExtractor,
    {
        PulldownWikilinkExtractor
    }
}

impl WikilinkExtractor for PulldownWikilinkExtractor {
    open spec fn links_in(&self, text: Seq<char>) -> Seq<LinkView> {
        links_of_text(text)
    }

    fn extract(&self, text: &str) -> (r: Vec<Link>) {
        extract_links_from_str(text)
    }
}

/// The hyperlinks read from parse events are all hyperlinks.
proof fn lemma_hyperlinks_only(evs: Seq<MdEventView>)
    ensures
        forall|i: int|
            0 <= i < hyperlinks_from_events(evs).len() ==> (#[trigger] hyperlinks_from_events(
                evs,
            )[i]) is Hyperlink,
    decreases evs.len(),
{
    if evs.len() > 0 {
        lemma_hyperlinks_only(evs.drop_last());
        let a = hyperlinks_from_events(evs.drop_last());
        let h = hyperlinks_from_events(evs);
        assert forall|i: int| 0 <= i < h.len() implies (#[trigger] h[i]) is Hyperlink by {
            if i < a.len() {
                assert(h[i] == a[i]);
            }
        }
    }
}

/// The two extractors agree on wikilinks: the Markdown-aware extractor
/// lists exactly the wikilinks that the simple one finds, in the same order,
/// followed only by hyperlinks.
pub proof fn law_extractors_agree(text: Seq<char>)
    ensures
        ({
            let p = SimpleWikilinkExtractor.links_in(text);
            let q = PulldownWikilinkExtractor.links_in(text);
            &&& p.len() <= q.len()
            &&& q.take(p.len() as int) == p
            &&& forall|i: int| p.len() <= i < q.len() ==> (#[trigger] q[i]) is Hyperlink
        }),
{
    let p = wikilinks(text);
    let h = hyperlinks_from_events(markdown_events_of(text, 0));
    let q = p + h;
    lemma_hyperlinks_only(markdown_events_of(text, 0));
    assert(q.take(p.len() as int) =~= p);
    assert forall|i: int| p.len() <= i < q.len() implies (#[trigger] q[i]) is Hyperlink by {
        assert(q[i] == h[i - p.len()]);
    }
}

/// Every Markdown-aware extractor, whether made by `new` or by `default`,
/// finds what `extract_links_from_str` finds.
pub proof fn law_extractor_is_extract_links_from_str(
    e: PulldownWikilinkExtractor,
    f: PulldownWikilinkExtractor,
    text: Seq<char>,
)
    ensures
        e.links_in(text) == links_of_text(text),
        e.links_in(text) == f.links_in(text),
{
}

/// Reading links from events goes event by event: the links of two runs of
/// events one after the other are the links of the first run followed by
/// those of the second.
pub proof fn law_links_from_events_concat(a: Seq<MdEventView>, b: Seq<MdEventView>)
    ensures
        links_from_events(a + b) == links_from_events(a) + links_from_events(b),
    decreases b.len(),
{
    if b.len() == 0 {
        assert(a + b =~= a);
        assert(links_from_events(a) + links_from_events(b) =~= links_from_events(a));
    } else {
        law_links_from_events_concat(a, b.drop_last());
        assert((a + b).drop_last() =~= a + b.drop_last());
        assert((a + b).last() == b.last());
    }
}

/// A text event yields exactly the wikilinks that the simple scanner finds
/// in its text; a link start yields its hyperlink; any other event yields
/// nothing.  With the law above, the links of a run of events are these, in
/// event order.
pub proof fn law_links_of_one_event(e: MdEventView)
    ensures
        links_from_events(seq![e]) == match e {
            MdEventView::Text(t) => SimpleWikilinkExtractor.links_in(t),
            MdEventView::Start(MdTagView::Link { url, title }) => seq![hyperlink(url, title)],
            _ => Seq::<LinkView>::empty(),
        },
{
    assert(seq![e].drop_last() =~= Seq::<MdEventView>::empty());
    assert(links_from_events(Seq::<MdEventView>::empty()) == Seq::<LinkView>::empty());
    match e {
        MdEventView::Text(t) => {
            assert(Seq::<LinkView>::empty() + wikilinks(t) =~= wikilinks(t));
        },
        MdEventView::Start(MdTagView::Link { url, title }) => {
            assert(Seq::<LinkView>::empty() + seq![hyperlink(url, title)] =~= seq![
                hyperlink(url, title),
            ]);
        },
        _ => {
            assert(Seq::<LinkView>::empty() + Seq::<LinkView>::empty() =~= Seq::<LinkView>::empty());
        },
    }
}

} // verus!

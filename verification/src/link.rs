//! Link types and the extraction trait.
//!
//! Defines the canonical [`Link`] type (wikilinks + hyperlinks), the
//! [`WikilinkExtractor`] trait, and the dependency-free
//! [`SimpleWikilinkExtractor`].
use vstd::prelude::*;
use crate::text::{chars_of, copy_range, find, find_at, find_char_at, lemma_find_from, occurs_at, slice_from, string_from_chars};

verus! {

/// A link extracted from a Markdown document.
///
/// Either an Obsidian-style wikilink (`[[target]]` or `[[target|alias]]`)
/// or a standard Markdown hyperlink.
#[derive(Debug, Clone, PartialEq, Eq)]
pub enum Link {
    /// An Obsidian-style wikilink: `[[target]]` or `[[target|alias]]`.
    Wikilink { target: String, alias: Option<String> },
    /// A standard Markdown hyperlink.
    Hyperlink { url: String, title: Option<String> },
}

/// The mathematical content of a [`Link`].
pub enum LinkView {
    Wikilink { target: Seq<char>, alias: Option<Seq<char>> },
    Hyperlink { url: Seq<char>, title: Option<Seq<char>> },
}

pub open spec fn opt_view(o: Option<String>) -> Option<Seq<char>> {
    match o {
        Some(s) => Some(s@),
        None => None,
    }
}

impl View for Link {
    type V = LinkView;

    open spec fn view(&self) -> LinkView {
        match self {
            Link::Wikilink { target, alias } => LinkView::Wikilink {
                target: target@,
                alias: opt_view(*alias),
            },
            Link::Hyperlink { url, title } => LinkView::Hyperlink {
                url: url@,
                title: opt_view(*title),
            },
        }
    }
}

impl DeepView for Link {
    type V = LinkView;

    open spec fn deep_view(&self) -> LinkView {
        self@
    }
}

/// `[[`
pub open spec fn open_brackets() -> Seq<char> {
    seq!['[', '[']
}

/// `]]`
pub open spec fn close_brackets() -> Seq<char> {
    seq![']', ']']
}

/// The wikilink written `[[inner]]`: the target is what precedes the first
/// `|`, the alias what follows it.
pub open spec fn wikilink_of(inner: Seq<char>) -> LinkView {
    match find(inner, seq!['|']) {
        Some(p) => LinkView::Wikilink { target: inner.take(p), alias: Some(inner.skip(p + 1)) },
        None => LinkView::Wikilink { target: inner, alias: None },
    }
}

/// The wikilinks of `s`, left to right.
///
/// Each `[[` is closed by the first `]]` after it; scanning resumes after
/// that `]]`.  An `[[` with no `]]` after it ends the scan.
pub open spec fn wikilinks(s: Seq<char>) -> Seq<LinkView>
    decreases s.len(),
{
    match find(s, open_brackets()) {
        None => seq![],
        Some(st) => if 0 <= st && st + 2 <= s.len() {
            let rem = s.skip(st + 2);
            match find(rem, close_brackets()) {
                None => seq![],
                Some(e) => if 0 <= e && e + 2 <= rem.len() {
                    seq![wikilink_of(rem.take(e))] + wikilinks(rem.skip(e + 2))
                } else {
                    seq![]
                },
            }
        } else {
            seq![]
        },
    }
}

/// Builds the wikilink written `[[inner]]`.
pub fn wikilink_from_inner(inner: &[char]) -> (l: Link)
    ensures
        l@ == wikilink_of(inner@),
{
    let n = inner.len();
    match find_char_at(inner, '|', 0) {
        Some(p) => {
            proof {
                lemma_find_from(inner@, seq!['|'], 0);
            }
            let target = copy_range(inner, 0, p);
            let alias = copy_range(inner, p + 1, n);
            assert(target@ == inner@.take(p as int));
            assert(alias@ == inner@.skip(p + 1));
            Link::Wikilink { target: string_from_chars(target), alias: Some(string_from_chars(alias)) }
        },
        None => {
            let target = copy_range(inner, 0, inner.len());
            assert(target@ == inner@);
            Link::Wikilink { target: string_from_chars(target), alias: None }
        },
    }
}

/// Appends the wikilinks of `s` to `out`.
pub fn push_wikilinks(s: &[char], out: &mut Vec<Link>)
    ensures
        final(out).deep_view() == old(out).deep_view() + wikilinks(s@),
{
    let open = ['[', '['];
    let close = [']', ']'];
    assert(open@ =~= open_brackets());
    assert(close@ =~= close_brackets());
    let n = s.len();
    let mut pos: usize = 0;
    assert(s@.skip(0) == s@);
    loop
        invariant
            n == s@.len(),
            pos <= s@.len(),
            open@ == open_brackets(),
            close@ == close_brackets(),
            out.deep_view() + wikilinks(s@.skip(pos as int)) == old(out).deep_view() + wikilinks(
                s@,
            ),
        decreases s@.len() - pos,
    {
        let rest = slice_from(s, pos);
        let ghost before = out.deep_view();
        match find_at(rest, &open, 0) {
            None => {
                assert(before + wikilinks(rest@) =~= before);
                return;
            },
            Some(st) => {
                proof {
                    lemma_find_from(rest@, open_brackets(), 0);
                }
                let rem = slice_from(rest, st + 2);
                match find_at(rem, &close, 0) {
                    None => {
                        assert(before + wikilinks(rest@) =~= before);
                        return;
                    },
                    Some(e) => {
                        proof {
                            lemma_find_from(rem@, close_brackets(), 0);
                        }
                        let inner = crate::text::slice_to(rem, e);
                        let link = wikilink_from_inner(inner);
                        out.push(link);
                        assert(out.deep_view() =~= before.push(link@));
                        assert(rem@.skip(e + 2) == s@.skip(pos + st + 2 + e + 2));
                        assert(before + wikilinks(rest@) =~= out.deep_view() + wikilinks(
                            rem@.skip(e + 2),
                        ));
                        pos = pos + st + 2 + e + 2;
                    },
                }
            },
        }
    }
}

/// Scans a plain-text segment for `[[...]]` patterns and appends the
/// wikilinks found to `out`.
pub fn extract_wikilinks_from_text(text: &str, out: &mut Vec<Link>)
    ensures
        final(out).deep_view() == old(out).deep_view() + wikilinks(text@),
{
    let cs = chars_of(text);
    push_wikilinks(cs.as_slice(), out);
}

/// Abstraction for extracting links from Markdown text.
///
/// Implementors provide a strategy for parsing wikilinks and hyperlinks from
/// a raw string.  Extraction is pure and deterministic: the links found are a
/// function of the text alone.
pub trait WikilinkExtractor {
    /// The links this extractor finds in `text`.
    spec fn links_in(&self, text: Seq<char>) -> Seq<LinkView>;

    /// Extract all links (wikilinks + hyperlinks) from the given text.
    fn extract(&self, text: &str) -> (r: Vec<Link>)
        ensures
            r.deep_view() == self.links_in(text@),
    ;
}

/// Minimal, dependency-free [`WikilinkExtractor`] that scans for `[[...]]`
/// patterns using plain string operations.
///
/// Recognises `[[target]]` and `[[target|alias]]`; it does not extract
/// standard Markdown hyperlinks.
#[derive(Debug, Default, Clone, Copy)]
pub struct SimpleWikilinkExtractor;

impl WikilinkExtractor for SimpleWikilinkExtractor {
    open spec fn links_in(&self, text: Seq<char>) -> Seq<LinkView> {
        wikilinks(text)
    }

    fn extract(&self, text: &str) -> (r: Vec<Link>) {
        let mut out: Vec<Link> = Vec::new();
        assert(out.deep_view() =~= Seq::<LinkView>::empty());
        extract_wikilinks_from_text(text, &mut out);
        assert(out.deep_view() =~= wikilinks(text@));
        out
    }
}

/// The simple scan yields wikilinks only, never hyperlinks.
pub proof fn law_wikilinks_are_wikilinks(s: Seq<char>)
    ensures
        forall|i: int| 0 <= i < wikilinks(s).len() ==> (#[trigger] wikilinks(s)[i]) is Wikilink,
    decreases s.len(),
{
    match find(s, open_brackets()) {
        None => {},
        Some(st) => if 0 <= st && st + 2 <= s.len() {
            let rem = s.skip(st + 2);
            match find(rem, close_brackets()) {
                None => {},
                Some(e) => if 0 <= e && e + 2 <= rem.len() {
                    law_wikilinks_are_wikilinks(rem.skip(e + 2));
                    let w = wikilinks(s);
                    let t = wikilinks(rem.skip(e + 2));
                    assert forall|i: int| 0 <= i < w.len() implies (#[trigger] w[i]) is Wikilink by {
                        if i > 0 {
                            assert(w[i] == t[i - 1]);
                        }
                    }
                },
            }
        },
    }
}

/// A text without `[[`, or without `]]`, holds no wikilinks.
pub proof fn law_no_brackets_no_wikilinks(s: Seq<char>)
    ensures
        find(s, open_brackets()) is None ==> wikilinks(s).len() == 0,
        find(s, close_brackets()) is None ==> wikilinks(s).len() == 0,
{
    if find(s, close_brackets()) is None {
        lemma_find_from(s, close_brackets(), 0);
        match find(s, open_brackets()) {
            None => {},
            Some(st) => if 0 <= st && st + 2 <= s.len() {
                let rem = s.skip(st + 2);
                lemma_find_from(rem, close_brackets(), 0);
                if find(rem, close_brackets()) is Some {
                    let e = find(rem, close_brackets())->0;
                    assert(s.subrange(st + 2 + e, st + 2 + e + 2) == rem.subrange(e, e + 2));
                    assert(occurs_at(s, close_brackets(), st + 2 + e));
                }
            },
        }
    }
}

/// How many `[[` a left-to-right scan finds in `s`, each found `[[` being
/// skipped whole (`str::matches("[[").count()`).
pub open spec fn open_count(s: Seq<char>) -> nat
    decreases s.len(),
{
    match find(s, open_brackets()) {
        None => 0,
        Some(i) => if 0 <= i && i + 2 <= s.len() {
            1 + open_count(s.skip(i + 2))
        } else {
            0
        },
    }
}

/// Dropping a prefix never adds a `[[` to the count.
proof fn lemma_open_count_skip(s: Seq<char>, k: int)
    requires
        0 <= k <= s.len(),
    ensures
        open_count(s.skip(k)) <= open_count(s),
    decreases s.len(),
{
    let p = open_brackets();
    let t = s.skip(k);
    lemma_find_from(s, p, 0);
    lemma_find_from(t, p, 0);
    match find(t, p) {
        None => {},
        Some(j) => {
            assert(t.subrange(j, j + 2) =~= s.subrange(k + j, k + j + 2));
            assert(occurs_at(s, p, k + j));
            let i = find(s, p)->0;
            if k <= i {
                assert(t.subrange(i - k, i - k + 2) =~= s.subrange(i, i + 2));
                assert(occurs_at(t, p, i - k));
                if j < i - k {
                    assert(occurs_at(s, p, k + j));
                }
                assert(j == i - k);
                assert(t.skip(j + 2) =~= s.skip(i + 2));
            } else if k >= i + 2 {
                assert(t =~= s.skip(i + 2).skip(k - i - 2));
                lemma_open_count_skip(s.skip(i + 2), k - i - 2);
            } else {
                assert(t.skip(j + 2) =~= s.skip(i + 2).skip(j + 1));
                lemma_open_count_skip(s.skip(i + 2), j + 1);
            }
        },
    }
}

/// The simple scan yields at most one wikilink for each `[[` of the text.
pub proof fn law_wikilinks_bounded_by_openings(s: Seq<char>)
    ensures
        wikilinks(s).len() <= open_count(s),
    decreases s.len(),
{
    match find(s, open_brackets()) {
        None => {},
        Some(st) => if 0 <= st && st + 2 <= s.len() {
            let rem = s.skip(st + 2);
            match find(rem, close_brackets()) {
                None => {},
                Some(e) => if 0 <= e && e + 2 <= rem.len() {
                    law_wikilinks_bounded_by_openings(rem.skip(e + 2));
                    lemma_open_count_skip(rem, e + 2);
                },
            }
        },
    }
}

} // verus!

//! Markdown processing with wikilink support: clickable wikilinks, HTML
//! rendering with sanitization, and Markdown file detection.
use vstd::prelude::*;
use crate::parser::{ENABLE_STRIKETHROUGH, ENABLE_TABLES, ENABLE_TASKLISTS};
use crate::link::{close_brackets, open_brackets};
use crate::text::{
    chars_of, contains, occurs_at, ends_with, ends_with_chars, find, find_at, find_char_at, lemma_find_from, lemma_find_is,
    lowercase_text, push_all, slice_from, slice_to, string_from_chars, to_lowercase,
};

verus! {

/// `<a class="forge-wikilink" data-target="`
pub open spec fn anchor_open() -> Seq<char> {
    "<a class=\"forge-wikilink\" data-target=\""@
}

/// `">`
pub open spec fn anchor_mid() -> Seq<char> {
    "\">"@
}

/// `</a>`
pub open spec fn anchor_close() -> Seq<char> {
    "</a>"@
}

/// `javascript:`
pub open spec fn script_scheme() -> Seq<char> {
    "javascript:"@
}

/// `&lt;blocked&gt;`
pub open spec fn blocked_marker() -> Seq<char> {
    "&lt;blocked&gt;"@
}

/// The HTML escape of one character.  `=` is escaped too, so that no
/// attribute assignment survives; in an attribute (`attr`) the double quote
/// is escaped as well.
pub open spec fn escape_char(c: char, attr: bool) -> Seq<char> {
    if c == '&' {
        "&amp;"@
    } else if c == '<' {
        "&lt;"@
    } else if c == '>' {
        "&gt;"@
    } else if c == '=' {
        "&#61;"@
    } else if attr && c == '"' {
        "&quot;"@
    } else {
        seq![c]
    }
}

/// The HTML escape of a text, character by character.
pub open spec fn escape(s: Seq<char>, attr: bool) -> Seq<char>
    decreases s.len(),
{
    if s.len() == 0 {
        seq![]
    } else {
        escape(s.drop_last(), attr) + escape_char(s.last(), attr)
    }
}

/// `s` with every `javascript:` replaced by `&lt;blocked&gt;`.
pub open spec fn neutralize(s: Seq<char>) -> Seq<char>
    decreases s.len(),
{
    match find(s, script_scheme()) {
        Some(i) => if 0 <= i && i + script_scheme().len() <= s.len() && script_scheme().len() > 0 {
            s.take(i) + blocked_marker() + neutralize(s.skip(i + script_scheme().len()))
        } else {
            s
        },
        None => s,
    }
}

/// The anchor that a wikilink with this target and display text becomes.
#[verifier::opaque]
pub open spec fn anchor(target: Seq<char>, display: Seq<char>) -> Seq<char> {
    anchor_open() + neutralize(escape(target, true)) + anchor_mid() + neutralize(
        escape(display, false),
    ) + anchor_close()
}

/// The target and display text of the wikilink written `[[inner]]`: the
/// display text is the alias after `|`, or the target itself.
pub open spec fn target_and_display(inner: Seq<char>) -> (Seq<char>, Seq<char>) {
    match find(inner, seq!['|']) {
        Some(p) => (inner.take(p), inner.skip(p + 1)),
        None => (inner, inner),
    }
}

/// What `render_wikilinks` makes of a text.
///
/// Every `[[inner]]` becomes an anchor; text outside wikilinks is kept as
/// it is; an `[[` with no `]]` after it is kept with the rest of the text.
pub open spec fn rendered(s: Seq<char>) -> Seq<char>
    decreases s.len(),
{
    match find(s, open_brackets()) {
        None => s,
        Some(st) => if 0 <= st && st + 2 <= s.len() {
            let rem = s.skip(st + 2);
            s.take(st) + match find(rem, close_brackets()) {
                None => open_brackets() + rem,
                Some(e) => if 0 <= e && e + 2 <= rem.len() {
                    let td = target_and_display(rem.take(e));
                    anchor(td.0, td.1) + rendered(rem.skip(e + 2))
                } else {
                    open_brackets() + rem
                },
            }
        } else {
            s
        },
    }
}

fn push_escaped(out: &mut Vec<char>, s: &[char], attr: bool)
    ensures
        final(out)@ == old(out)@ + escape(s@, attr),
{
    let amp = chars_of("&amp;");
    let lt = chars_of("&lt;");
    let gt = chars_of("&gt;");
    let quot = chars_of("&quot;");
    let eq = chars_of("&#61;");
    let mut i: usize = 0;
    assert(s@.take(0) =~= Seq::<char>::empty());
    assert(old(out)@ + escape(s@.take(0), attr) =~= old(out)@);
    while i < s.len()
        invariant
            i <= s@.len(),
            amp@ == "&amp;"@,
            lt@ == "&lt;"@,
            gt@ == "&gt;"@,
            quot@ == "&quot;"@,
            eq@ == "&#61;"@,
            out@ == old(out)@ + escape(s@.take(i as int), attr),
        decreases s.len() - i,
    {
        let c = s[i];
        let ghost before = out@;
        if c == '&' {
            push_all(out, amp.as_slice());
        } else if c == '<' {
            push_all(out, lt.as_slice());
        } else if c == '>' {
            push_all(out, gt.as_slice());
        } else if c == '=' {
            push_all(out, eq.as_slice());
        } else if attr && c == '"' {
            push_all(out, quot.as_slice());
        } else {
            out.push(c);
            assert(out@ =~= before + seq![c]);
        }
        assert(s@.take(i + 1).drop_last() =~= s@.take(i as int));
        assert(s@.take(i + 1).last() == c);
        assert(out@ =~= old(out)@ + escape(s@.take(i + 1), attr));
        i += 1;
    }
    assert(s@.take(s@.len() as int) =~= s@);
}

fn push_neutralized(out: &mut Vec<char>, s: &[char])
    ensures
        final(out)@ == old(out)@ + neutralize(s@),
{
    let scheme = chars_of("javascript:");
    let blocked = chars_of("&lt;blocked&gt;");
    proof {
        reveal_strlit("javascript:");
    }
    let n = s.len();
    let mut pos: usize = 0;
    assert(s@.skip(0) == s@);
    loop
        invariant
            n == s@.len(),
            pos <= s@.len(),
            scheme@ == script_scheme(),
            scheme@.len() == 11,
            blocked@ == blocked_marker(),
            out@ + neutralize(s@.skip(pos as int)) == old(out)@ + neutralize(s@),
        decreases s@.len() - pos,
    {
        let rest = slice_from(s, pos);
        let ghost before = out@;
        match find_at(rest, scheme.as_slice(), 0) {
            None => {
                push_all(out, rest);
                return;
            },
            Some(i) => {
                proof {
                    lemma_find_from(rest@, script_scheme(), 0);
                }
                push_all(out, slice_to(rest, i));
                push_all(out, blocked.as_slice());
                assert(rest@.skip(i + 11) == s@.skip(pos + i + 11));
                assert(before + neutralize(rest@) =~= out@ + neutralize(rest@.skip(i + 11)));
                pos = pos + i + 11;
            },
        }
    }
}

fn push_anchor(out: &mut Vec<char>, target: &[char], display: &[char])
    ensures
        final(out)@ == old(out)@ + anchor(target@, display@),
{
    let a_open = chars_of("<a class=\"forge-wikilink\" data-target=\"");
    let a_mid = chars_of("\">");
    let a_close = chars_of("</a>");
    push_all(out, a_open.as_slice());
    let mut t: Vec<char> = Vec::new();
    push_escaped(&mut t, target, true);
    assert(t@ =~= escape(target@, true));
    push_neutralized(out, t.as_slice());
    push_all(out, a_mid.as_slice());
    let mut d: Vec<char> = Vec::new();
    push_escaped(&mut d, display, false);
    assert(d@ =~= escape(display@, false));
    push_neutralized(out, d.as_slice());
    push_all(out, a_close.as_slice());
    reveal(anchor);
    assert(final(out)@ =~= old(out)@ + anchor(target@, display@));
}

fn push_link(out: &mut Vec<char>, inner: &[char])
    ensures
        final(out)@ == old(out)@ + anchor(
            target_and_display(inner@).0,
            target_and_display(inner@).1,
        ),
{
    let n = inner.len();
    match find_char_at(inner, '|', 0) {
        Some(p) => {
            proof {
                lemma_find_from(inner@, seq!['|'], 0);
            }
            assert(p < n);
            push_anchor(out, slice_to(inner, p), slice_from(inner, p + 1));
        },
        None => {
            push_anchor(out, inner, inner);
        },
    }
}

/// Renders the text up to and including its first wikilink.  Returns how
/// many characters were consumed, or `None` when the whole text was.
fn render_step(out: &mut Vec<char>, rest: &[char]) -> (r: Option<usize>)
    ensures
        match r {
            Some(k) => 0 < k <= rest@.len() && old(out)@ + rendered(rest@) == final(out)@
                + rendered(rest@.skip(k as int)),
            None => final(out)@ == old(out)@ + rendered(rest@),
        },
{
    let open = ['[', '['];
    let close = [']', ']'];
    assert(open@ =~= open_brackets());
    assert(close@ =~= close_brackets());
    let n = rest.len();
    match find_at(rest, &open, 0) {
        None => {
            push_all(out, rest);
            None
        },
        Some(st) => {
            proof {
                lemma_find_from(rest@, open_brackets(), 0);
            }
            push_all(out, slice_to(rest, st));
            let rem = slice_from(rest, st + 2);
            match find_at(rem, &close, 0) {
                None => {
                    push_all(out, &open);
                    push_all(out, rem);
                    assert(final(out)@ =~= old(out)@ + rendered(rest@));
                    None
                },
                Some(e) => {
                    proof {
                        lemma_find_from(rem@, close_brackets(), 0);
                    }
                    let inner = slice_to(rem, e);
                    push_link(out, inner);
                    assert(rem@.skip(e + 2) == rest@.skip(st + 2 + e + 2));
                    assert(old(out)@ + rendered(rest@) =~= final(out)@ + rendered(rem@.skip(e + 2)));
                    Some(st + 2 + e + 2)
                },
            }
        },
    }
}

/// Replace `[[target]]` and `[[target|alias]]` with clickable anchor tags.
///
/// Produces `<a class="forge-wikilink" data-target="target">display</a>`.
/// Target and display text are HTML-escaped (`=` included), and a
/// `javascript:` scheme in them is replaced by `&lt;blocked&gt;`.  Runs before sanitization so that
/// the tags survive.
pub fn render_wikilinks(text: &str) -> (r: String)
    ensures
        r@ == rendered(text@),
{
    let cs = chars_of(text);
    let s = cs.as_slice();
    let mut out: Vec<char> = Vec::new();
    let n = s.len();
    let mut pos: usize = 0;
    assert(s@.skip(0) == s@);
    loop
        invariant
            n == s@.len(),
            pos <= s@.len(),
            s@ == text@,
            out@ + rendered(s@.skip(pos as int)) == rendered(s@),
        decreases s@.len() - pos,
    {
        let rest = slice_from(s, pos);
        match render_step(&mut out, rest) {
            None => {
                assert(out@ =~= rendered(text@));
                return string_from_chars(out);
            },
            Some(k) => {
                assert(rest@.skip(k as int) == s@.skip(pos + k));
                pos = pos + k;
            },
        }
    }
}

/// The HTML that `pulldown_cmark::html::push_html` writes for the events of
/// `Parser::new_ext` on a text and option bits.
pub uninterp spec fn markdown_html_of(text: Seq<char>, options: u32) -> Seq<char>;

/// Renders Markdown to HTML with `pulldown_cmark::html::push_html` over
/// `Parser::new_ext(text, Options::from_bits_truncate(options))`.  The
/// contract names the result; it says nothing of how Markdown renders.
#[verifier::external_body]
fn markdown_html(text: &str, options: u32) -> (r: String)
    ensures
        r@ == markdown_html_of(text@, options),
{
    let parser = pulldown_cmark::Parser::new_ext(
        text,
        pulldown_cmark::Options::from_bits_truncate(options),
    );
    let mut html = String::new();
    pulldown_cmark::html::push_html(&mut html, parser);
    html
}

/// The HTML that an `ammonia::Builder` makes of `html` when, beyond its
/// defaults, it allows the given attributes on `tag` and the given classes
/// on `class_tag`.
pub uninterp spec fn sanitized_html_of(
    html: Seq<char>,
    tag: Seq<char>,
    attributes: Seq<Seq<char>>,
    class_tag: Seq<char>,
    classes: Seq<Seq<char>>,
) -> Seq<char>;

/// Sanitizes HTML with `ammonia::Builder::default()`, extended by
/// `add_tag_attributes(tag, attributes)` and
/// `add_allowed_classes(class_tag, classes)`, then `clean(html).to_string()`.
/// The contract names the result; it says nothing of what is removed.
///
/// `clean` asserts that its settings agree, and `requires` keeps to what it
/// accepts: no attributes on the tags whose content it drops (`script`,
/// `style`), no `rel` on `a` (the default builder sets `rel` on links
/// itself), and no `class` attribute on a tag whose classes are filtered.
#[verifier::external_body]
fn sanitize_html(html: &str, tag: &str, attributes: &Vec<&str>, class_tag: &str, classes: &Vec<
    &str,
>) -> (r: String)
    requires
        tag@ != "script"@,
        tag@ != "style"@,
        tag@ == "a"@ ==> !attributes.deep_view().contains("rel"@),
        class_tag@ == tag@ ==> !attributes.deep_view().contains("class"@),
    ensures
        r@ == sanitized_html_of(html@, tag@, attributes.deep_view(), class_tag@, classes.deep_view()),
{
    let mut builder = ammonia::Builder::default();
    builder.add_tag_attributes(tag, attributes.iter().copied());
    builder.add_allowed_classes(class_tag, classes.iter().copied());
    builder.clean(html).to_string()
}

/// The options `md_to_html` renders with: tables, strikethrough, task lists.
pub open spec fn html_options() -> u32 {
    (ENABLE_TABLES | ENABLE_STRIKETHROUGH | ENABLE_TASKLISTS) as u32
}

/// The attributes allowed on anchors: the wikilink target and `href`.
pub open spec fn anchor_attributes() -> Seq<Seq<char>> {
    seq!["data-target"@, "href"@]
}

/// What `md_to_html` makes of a Markdown text: its wikilinks rendered as
/// anchors, then Markdown rendered to HTML, then sanitized with wikilink
/// anchors allowed.
pub open spec fn markdown_page(markdown: Seq<char>) -> Seq<char> {
    sanitized_html_of(
        markdown_html_of(rendered(markdown), html_options()),
        "a"@,
        anchor_attributes(),
        "a"@,
        seq!["forge-wikilink"@],
    )
}

/// Convert Markdown to sanitized HTML with clickable wikilinks.
///
/// Processing order:
/// 1. Replace `[[wikilinks]]` with `<a class="forge-wikilink">` tags
/// 2. Render Markdown to HTML via pulldown-cmark
/// 3. Sanitize via ammonia (configured to keep wikilink anchors)
pub fn md_to_html(markdown: &str) -> (r: String)
    ensures
        r@ == markdown_page(markdown@),
{
    let with_links = render_wikilinks(markdown);
    let opts = ENABLE_TABLES | ENABLE_STRIKETHROUGH | ENABLE_TASKLISTS;
    let raw_html = markdown_html(with_links.as_str(), opts);
    let mut attributes: Vec<&str> = Vec::new();
    attributes.push("data-target");
    attributes.push("href");
    let mut classes: Vec<&str> = Vec::new();
    classes.push("forge-wikilink");
    assert(attributes.deep_view() =~= anchor_attributes());
    assert(classes.deep_view() =~= seq!["forge-wikilink"@]);
    proof {
        reveal_strlit("a");
        reveal_strlit("script");
        reveal_strlit("style");
        reveal_strlit("rel");
        reveal_strlit("class");
        reveal_strlit("data-target");
        reveal_strlit("href");
        assert("a"@ != "script"@) by {
            assert("a"@.len() != "script"@.len());
        }
        assert("a"@ != "style"@) by {
            assert("a"@.len() != "style"@.len());
        }
        assert(!attributes.deep_view().contains("rel"@)) by {
            assert(attributes.deep_view()[0] == "data-target"@);
            assert(attributes.deep_view()[1] == "href"@);
            assert("data-target"@.len() != "rel"@.len());
            assert("href"@[0] != "rel"@[0]);
        }
        assert(!attributes.deep_view().contains("class"@)) by {
            assert(attributes.deep_view()[0] == "data-target"@);
            assert(attributes.deep_view()[1] == "href"@);
            assert("data-target"@.len() != "class"@.len());
            assert("href"@[0] != "class"@[0]);
        }
    }
    sanitize_html(raw_html.as_str(), "a", &attributes, "a", &classes)
}

/// Whether a path names a Markdown file: its lowercase form ends in `.md`.
pub open spec fn is_markdown_path(path: Seq<char>) -> bool {
    ends_with(lowercase_text(path), ".md"@)
}

/// Detect if a file is Markdown by extension.
pub fn is_markdown(path: &str) -> (b: bool)
    ensures
        b == is_markdown_path(path@),
{
    let lower = to_lowercase(path);
    let lc = chars_of(lower.as_str());
    let ext = chars_of(".md");
    ends_with_chars(lc.as_slice(), ext.as_slice())
}

/// Text without `[[` is rendered as it is.
pub proof fn law_render_without_wikilinks(s: Seq<char>)
    requires
        find(s, open_brackets()) is None,
    ensures
        rendered(s) == s,
{
}

/// Escaped text holds no `<`, `>` or `=` character, and inside an
/// attribute no `"`: user text cannot open a tag or an attribute.
pub proof fn law_escape_is_inert(s: Seq<char>, attr: bool)
    ensures
        forall|i: int|
            0 <= i < escape(s, attr).len() ==> {
                let c = #[trigger] escape(s, attr)[i];
                &&& c != '<'
                &&& c != '>'
                &&& c != '='
                &&& attr ==> c != '"'
            },
    decreases s.len(),
{
    reveal_strlit("&amp;");
    reveal_strlit("&lt;");
    reveal_strlit("&gt;");
    reveal_strlit("&#61;");
    reveal_strlit("&quot;");
    if s.len() > 0 {
        law_escape_is_inert(s.drop_last(), attr);
        let a = escape(s.drop_last(), attr);
        let b = escape_char(s.last(), attr);
        let e = escape(s, attr);
        assert(e == a + b);
        assert forall|i: int| 0 <= i < e.len() implies {
            let c = #[trigger] e[i];
            &&& c != '<'
            &&& c != '>'
            &&& c != '='
            &&& attr ==> c != '"'
        } by {
            if i < a.len() {
                assert(e[i] == a[i]);
            } else {
                assert(e[i] == b[i - a.len()]);
            }
        }
    }
}

/// Neutralized text never holds `javascript:`: every occurrence is
/// replaced, and the replacement cannot combine with its neighbours into a
/// new one.
pub proof fn law_neutralize_blocks_script_scheme(s: Seq<char>)
    ensures
        forall|m: int| !#[trigger] occurs_at(neutralize(s), script_scheme(), m),
        !contains(neutralize(s), script_scheme()),
    decreases s.len(),
{
    reveal_strlit("javascript:");
    reveal_strlit("&lt;blocked&gt;");
    let p = script_scheme();
    assert(p =~= seq!['j', 'a', 'v', 'a', 's', 'c', 'r', 'i', 'p', 't', ':']);
    let mk = blocked_marker();
    assert(mk =~= seq!['&', 'l', 't', ';', 'b', 'l', 'o', 'c', 'k', 'e', 'd', '&', 'g', 't', ';']);
    lemma_find_from(s, p, 0);
    match find(s, p) {
        None => {},
        Some(i) => {
            let rest = s.skip(i + p.len());
            law_neutralize_blocks_script_scheme(rest);
            let a = s.take(i);
            let b = neutralize(rest);
            let r = neutralize(s);
            assert(r == a + mk + b);
            let l = a.len() as int;
            let lm = l + mk.len();
            assert forall|m: int| !#[trigger] occurs_at(r, p, m) by {
                if occurs_at(r, p, m) {
                    let w = r.subrange(m, m + p.len());
                    assert(w == p);
                    if m + p.len() <= l {
                        assert(s.subrange(m, m + p.len()) =~= w);
                        assert(occurs_at(s, p, m));
                    } else if m < l {
                        assert(w[l - m] == r[l]);
                        assert(r[l] == '&');
                    } else if m < lm {
                        assert(w[0] == r[m]);
                        assert(r[m] == mk[m - l]);
                    } else {
                        assert(b.subrange(m - lm, m - lm + p.len()) =~= w);
                        assert(occurs_at(b, p, m - lm));
                    }
                }
            }
        },
    }
    lemma_find_from(neutralize(s), p, 0);
}

/// A character that cannot open a tag or an attribute: no `<`, `>` or `=`,
/// and inside an attribute no `"`.
pub open spec fn is_inert(c: char, attr: bool) -> bool {
    c != '<' && c != '>' && c != '=' && (attr ==> c != '"')
}

proof fn lemma_neutralize_keeps_inert(s: Seq<char>, attr: bool)
    requires
        forall|j: int| 0 <= j < s.len() ==> is_inert(#[trigger] s[j], attr),
    ensures
        forall|k: int| 0 <= k < neutralize(s).len() ==> is_inert(#[trigger] neutralize(s)[k], attr),
    decreases s.len(),
{
    reveal_strlit("javascript:");
    reveal_strlit("&lt;blocked&gt;");
    let p = script_scheme();
    let mk = blocked_marker();
    assert(mk =~= seq!['&', 'l', 't', ';', 'b', 'l', 'o', 'c', 'k', 'e', 'd', '&', 'g', 't', ';']);
    match find(s, p) {
        None => {},
        Some(i) => if 0 <= i && i + p.len() <= s.len() && p.len() > 0 {
            let rest = s.skip(i + p.len());
            assert forall|j: int| 0 <= j < rest.len() implies is_inert(#[trigger] rest[j], attr) by {
                assert(rest[j] == s[j + i + p.len()]);
            }
            lemma_neutralize_keeps_inert(rest, attr);
            let a = s.take(i);
            let b = neutralize(rest);
            let r = neutralize(s);
            assert(r == a + mk + b);
            assert forall|k: int| 0 <= k < r.len() implies is_inert(#[trigger] r[k], attr) by {
                if k < a.len() {
                    assert(r[k] == s[k]);
                } else if k < a.len() + mk.len() {
                    assert(r[k] == mk[k - a.len()]);
                } else {
                    assert(r[k] == b[k - a.len() - mk.len()]);
                }
            }
        },
    }
}

/// What a wikilink puts inside its anchor is inert: the target (in an
/// attribute) and the display text hold no `<`, `>` or `=` (the target no
/// `"` either) and no `javascript:`.
pub proof fn law_anchor_parts_are_inert(target: Seq<char>, display: Seq<char>)
    ensures
        forall|k: int|
            0 <= k < neutralize(escape(target, true)).len() ==> is_inert(
                #[trigger] neutralize(escape(target, true))[k],
                true,
            ),
        forall|k: int|
            0 <= k < neutralize(escape(display, false)).len() ==> is_inert(
                #[trigger] neutralize(escape(display, false))[k],
                false,
            ),
        !contains(neutralize(escape(target, true)), script_scheme()),
        !contains(neutralize(escape(display, false)), script_scheme()),
{
    law_escape_is_inert(target, true);
    law_escape_is_inert(display, false);
    let et = escape(target, true);
    let ed = escape(display, false);
    assert forall|j: int| 0 <= j < et.len() implies is_inert(#[trigger] et[j], true) by {}
    assert forall|j: int| 0 <= j < ed.len() implies is_inert(#[trigger] ed[j], false) by {}
    lemma_neutralize_keeps_inert(et, true);
    lemma_neutralize_keeps_inert(ed, false);
    law_neutralize_blocks_script_scheme(et);
    law_neutralize_blocks_script_scheme(ed);
}

/// `[[inner]]` + `v` finds its first `[[` after the text `p` before it and
/// its first `]]` right after `inner`.
proof fn lemma_render_link_first(p: Seq<char>, x: Seq<char>, v: Seq<char>)
    requires
        !contains(p, open_brackets()),
        !(p.len() > 0 && p.last() == '['),
        !contains(x, close_brackets()),
        !(x.len() > 0 && x.last() == ']'),
    ensures
        rendered(p + open_brackets() + x + close_brackets() + v) == p + anchor(
            target_and_display(x).0,
            target_and_display(x).1,
        ) + rendered(v),
{
    let ob = open_brackets();
    let cb = close_brackets();
    let s = p + ob + x + cb + v;
    let n = p.len() as int;
    lemma_find_from(p, ob, 0);
    lemma_find_from(x, cb, 0);
    assert(s.subrange(n, n + 2) =~= ob);
    assert forall|m: int| 0 <= m < n implies !#[trigger] occurs_at(s, ob, m) by {
        if m + 1 < n {
            assert(s.subrange(m, m + 2) =~= p.subrange(m, m + 2));
            assert(!occurs_at(p, ob, m));
        } else {
            assert(s[m] == p.last());
        }
    }
    lemma_find_is(s, ob, n);
    let rem = s.skip(n + 2);
    assert(rem =~= x + cb + v);
    let xn = x.len() as int;
    assert(rem.subrange(xn, xn + 2) =~= cb);
    assert forall|m: int| 0 <= m < xn implies !#[trigger] occurs_at(rem, cb, m) by {
        if m + 1 < xn {
            assert(rem.subrange(m, m + 2) =~= x.subrange(m, m + 2));
            assert(!occurs_at(x, cb, m));
        } else {
            assert(rem[m] == x.last());
        }
    }
    lemma_find_is(rem, cb, xn);
    assert(s.take(n) =~= p);
    assert(rem.take(xn) =~= x);
    assert(rem.skip(xn + 2) =~= v);
}

/// Text outside wikilinks is kept: a text `p` with no `[[` renders as
/// itself, and a text that ends a wikilink cleanly (`p` then `[[x]]`)
/// renders as `p` and the anchor of `x`, whatever follows it being rendered
/// on its own and appended.
pub proof fn law_render_keeps_text(p: Seq<char>, x: Seq<char>, v: Seq<char>)
    requires
        !contains(p, open_brackets()),
        !(p.len() > 0 && p.last() == '['),
        !contains(x, close_brackets()),
        !(x.len() > 0 && x.last() == ']'),
    ensures
        rendered(p) == p,
        rendered(p + open_brackets() + x + close_brackets()) == p + anchor(
            target_and_display(x).0,
            target_and_display(x).1,
        ),
        rendered(p + open_brackets() + x + close_brackets() + v) == rendered(
            p + open_brackets() + x + close_brackets(),
        ) + rendered(v),
{
    lemma_render_link_first(p, x, v);
    lemma_render_link_first(p, x, seq![]);
    assert(p + open_brackets() + x + close_brackets() + Seq::<char>::empty() =~= p + open_brackets()
        + x + close_brackets());
    lemma_find_from(Seq::<char>::empty(), open_brackets(), 0);
    assert(rendered(Seq::<char>::empty()) == Seq::<char>::empty());
    assert(p + anchor(target_and_display(x).0, target_and_display(x).1) + Seq::<char>::empty()
        =~= p + anchor(target_and_display(x).0, target_and_display(x).1));
}

} // verus!

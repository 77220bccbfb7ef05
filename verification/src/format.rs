//! File format constants and the frontmatter/body split.
use vstd::prelude::*;
use crate::text::{
    find, find_at, lemma_find_from, slice_from, slice_to, starts_with, starts_with_chars,
    strip_start, strip_start_len, trim_start, chars_of, CharClass, ends_with,
    lemma_strip_start_suffix, lemma_suffix_trans, lemma_skip_suffix, lemma_strip_start_first,
    contains, occurs_at,
};

verus! {

/// The standard frontmatter delimiter used in Obsidian-compatible Markdown.
pub const FRONTMATTER_DELIMITER: &'static str = "---";

/// File extensions recognised as vault notes.
pub const NOTE_EXTENSIONS: [&'static str; 2] = ["md", "markdown"];

/// `---`
pub open spec fn delimiter() -> Seq<char> {
    seq!['-', '-', '-']
}

/// A newline followed by `---`: where a frontmatter block closes.
pub open spec fn closing_delimiter() -> Seq<char> {
    seq!['\n', '-', '-', '-']
}

/// The view of an optional string slice.
pub open spec fn opt_str_view(o: Option<&str>) -> Option<Seq<char>> {
    match o {
        Some(s) => Some(s@),
        None => None,
    }
}

/// What `split_frontmatter` returns for the characters of a document.
///
/// Leading white space is ignored.  The document has frontmatter when it then
/// starts with `---` and a later line starts with `---`: the frontmatter is
/// what lies between, without leading newlines, and the body is what follows
/// the closing `---`, without leading newlines.  Otherwise there is no
/// frontmatter and the body is the whole document.
pub open spec fn split_frontmatter_spec(raw: Seq<char>) -> (Option<Seq<char>>, Seq<char>) {
    let t = trim_start(raw);
    if !starts_with(t, delimiter()) {
        (None, raw)
    } else {
        let after = t.skip(3);
        match find(after, closing_delimiter()) {
            Some(cp) => (
                Some(strip_start(after.take(cp), CharClass::Exactly('\n'))),
                strip_start(after.skip(cp + 4), CharClass::Exactly('\n')),
            ),
            None => (None, raw),
        }
    }
}

/// Splits a raw Markdown document into an optional frontmatter block and the
/// note body.
///
/// Returns `(frontmatter_yaml, body_markdown)`.  If no frontmatter is found
/// the first element is `None` and the second is the entire input.
pub fn split_frontmatter(raw: &str) -> (r: (Option<&str>, &str))
    ensures
        (opt_str_view(r.0), r.1@) == split_frontmatter_spec(raw@),
{
    let cs = chars_of(raw);
    let n = cs.len();
    let k0 = strip_start_len(cs.as_slice(), CharClass::WhiteSpace);
    let t = slice_from(cs.as_slice(), k0);
    let open_delim = ['-', '-', '-'];
    assert(open_delim@ =~= delimiter());
    if !starts_with_chars(t, &open_delim) {
        return (None, raw);
    }
    let after = slice_from(t, 3);
    assert(after@ == t@.skip(3));
    let close_delim = ['\n', '-', '-', '-'];
    assert(close_delim@ =~= closing_delimiter());
    match find_at(after, &close_delim, 0) {
        Some(cp) => {
            proof {
                lemma_find_from(after@, closing_delimiter(), 0);
            }
            let yaml_part = slice_to(after, cp);
            let y0 = strip_start_len(yaml_part, CharClass::Exactly('\n'));
            let body_part = slice_from(after, cp + 4);
            let b0 = strip_start_len(body_part, CharClass::Exactly('\n'));
            let yaml = raw.substring_char(k0 + 3 + y0, k0 + 3 + cp);
            let body = raw.substring_char(k0 + 3 + cp + 4 + b0, n);
            assert(yaml@ =~= yaml_part@.skip(y0 as int));
            assert(body@ =~= body_part@.skip(b0 as int));
            (Some(yaml), body)
        },
        None => (None, raw),
    }
}

/// Without frontmatter the body is the whole document; with it, the body is
/// what is left of the document after the frontmatter block (a suffix of it).
pub proof fn law_split_body(raw: Seq<char>)
    ensures
        split_frontmatter_spec(raw).0 is None ==> split_frontmatter_spec(raw).1 == raw,
        ends_with(raw, split_frontmatter_spec(raw).1),
{
    let t = trim_start(raw);
    lemma_strip_start_suffix(raw, CharClass::WhiteSpace);
    assert(raw.skip(0) =~= raw);
    if starts_with(t, delimiter()) {
        let after = t.skip(3);
        lemma_skip_suffix(t, 3);
        lemma_suffix_trans(raw, t, after);
        lemma_find_from(after, closing_delimiter(), 0);
        match find(after, closing_delimiter()) {
            Some(cp) => {
                let rest = after.skip(cp + 4);
                lemma_skip_suffix(after, cp + 4);
                lemma_suffix_trans(raw, after, rest);
                lemma_strip_start_suffix(rest, CharClass::Exactly('\n'));
                lemma_suffix_trans(raw, rest, strip_start(rest, CharClass::Exactly('\n')));
            },
            None => {},
        }
    }
}

/// `n` newline characters.
pub open spec fn newlines(n: nat) -> Seq<char> {
    Seq::new(n, |i: int| '\n')
}

/// A sequence is its leading newlines followed by what `strip_start` leaves.
proof fn lemma_newline_prefix(s: Seq<char>)
    ensures
        strip_start(s, CharClass::Exactly('\n')).len() <= s.len(),
        s == newlines((s.len() - strip_start(s, CharClass::Exactly('\n')).len()) as nat)
            + strip_start(s, CharClass::Exactly('\n')),
    decreases s.len(),
{
    let r = strip_start(s, CharClass::Exactly('\n'));
    if s.len() > 0 && s[0] == '\n' {
        lemma_newline_prefix(s.drop_first());
        let m = (s.len() - 1 - r.len()) as nat;
        assert(newlines(m + 1) =~= seq!['\n'] + newlines(m));
        assert(s =~= seq![s[0]] + s.drop_first());
        assert(s =~= newlines(m + 1) + r);
    } else {
        assert(s =~= newlines(0) + s);
    }
}

/// A document has frontmatter exactly when, after its leading white space,
/// it starts with `---` and a later line starts with `---`.  The document,
/// without its leading white space, is then `---`, some newlines, the
/// frontmatter, `\n---`, some newlines and the body, where the newlines and
/// the frontmatter hold no `\n---`, and neither the frontmatter nor the
/// body starts with a newline.
pub proof fn law_split_decomposition(raw: Seq<char>)
    ensures
        split_frontmatter_spec(raw).0 is None <==> !(starts_with(trim_start(raw), delimiter())
            && contains(trim_start(raw).skip(3), closing_delimiter())),
        split_frontmatter_spec(raw).0 matches Some(y) ==> exists|i: nat, j: nat|
            #![trigger newlines(i), newlines(j)]
            {
                &&& trim_start(raw) == delimiter() + newlines(i) + y + closing_delimiter()
                    + newlines(j) + split_frontmatter_spec(raw).1
                &&& !contains(newlines(i) + y, closing_delimiter())
                &&& (y.len() == 0 || y[0] != '\n')
                &&& (split_frontmatter_spec(raw).1.len() == 0
                    || split_frontmatter_spec(raw).1[0] != '\n')
            },
{
    let t = trim_start(raw);
    if starts_with(t, delimiter()) {
        let after = t.skip(3);
        lemma_find_from(after, closing_delimiter(), 0);
        match find(after, closing_delimiter()) {
            Some(cp) => {
                let head = after.take(cp);
                let rest = after.skip(cp + 4);
                let y = strip_start(head, CharClass::Exactly('\n'));
                let body = strip_start(rest, CharClass::Exactly('\n'));
                lemma_newline_prefix(head);
                lemma_newline_prefix(rest);
                lemma_strip_start_first(head, CharClass::Exactly('\n'));
                lemma_strip_start_first(rest, CharClass::Exactly('\n'));
                let i = (head.len() - y.len()) as nat;
                let j = (rest.len() - body.len()) as nat;
                assert(after =~= head + closing_delimiter() + rest);
                assert(t =~= delimiter() + after);
                assert(t =~= delimiter() + newlines(i) + y + closing_delimiter() + newlines(j)
                    + body);
                lemma_find_from(head, closing_delimiter(), 0);
                if contains(head, closing_delimiter()) {
                    let m = find(head, closing_delimiter())->0;
                    assert(head.subrange(m, m + 4) =~= after.subrange(m, m + 4));
                    assert(occurs_at(after, closing_delimiter(), m));
                }
                assert(!contains(newlines(i) + y, closing_delimiter()));
                assert(split_frontmatter_spec(raw).1 == body);
                assert(trim_start(raw) == delimiter() + newlines(i) + y + closing_delimiter()
                    + newlines(j) + split_frontmatter_spec(raw).1);
            },
            None => {},
        }
    }
}

} // verus!

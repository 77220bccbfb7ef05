//! Typed frontmatter parsing for Obsidian-compatible Markdown notes.
//!
//! Pure string parsing of the YAML frontmatter block into the fields the
//! vault cares about.  Supports both inline (`[a, b, c]`) and block (`- a`)
//! list formats.  Parsing never fails: absent or unparsable fields are empty.
//! Tags and aliases are trimmed, unquoted and lowercased.
use vstd::prelude::*;
use crate::format::{split_frontmatter, split_frontmatter_spec};
use crate::text::{
    chars_of, copy_range, ends_with, ends_with_chars, find, find_char_at, lemma_find_from,
    lines, lines_of, lowercase_chars, lowercase_text, slice_from, starts_with, starts_with_chars,
    string_from_chars, trim, trim_char, trim_char_slice, trim_slice, trim_start, trim_start_slice,
};

verus! {

/// Parsed typed frontmatter from an Obsidian-compatible Markdown note.
///
/// All tag/alias values are trimmed and lowercased for consistency.
#[derive(Debug, Clone, PartialEq)]
pub struct NoteFrontmatter {
    /// Frontmatter `tags:` list (normalized: trimmed, lowercased).
    pub tags: Vec<String>,
    /// Frontmatter `aliases:` list (normalized: trimmed, lowercased).
    pub aliases: Vec<String>,
    /// Frontmatter `title:` value (trimmed, original case preserved).
    pub title: Option<String>,
    /// Frontmatter `date:` or `created:` value (trimmed).
    pub date: Option<String>,
}

/// The mathematical content of a [`NoteFrontmatter`].
pub struct FrontmatterView {
    pub tags: Seq<Seq<char>>,
    pub aliases: Seq<Seq<char>>,
    pub title: Option<Seq<char>>,
    pub date: Option<Seq<char>>,
}

pub open spec fn opt_string_view(o: Option<String>) -> Option<Seq<char>> {
    match o {
        Some(s) => Some(s@),
        None => None,
    }
}

impl View for NoteFrontmatter {
    type V = FrontmatterView;

    open spec fn view(&self) -> FrontmatterView {
        FrontmatterView {
            tags: self.tags.deep_view(),
            aliases: self.aliases.deep_view(),
            title: opt_string_view(self.title),
            date: opt_string_view(self.date),
        }
    }
}

/// The empty frontmatter: no tags, no aliases, no title, no date.
pub open spec fn empty_frontmatter() -> FrontmatterView {
    FrontmatterView { tags: seq![], aliases: seq![], title: None, date: None }
}

impl Default for NoteFrontmatter {
    fn default() -> (r: Self)
        ensures
            r@ == empty_frontmatter(),
    {
        let r = NoteFrontmatter { tags: Vec::new(), aliases: Vec::new(), title: None, date: None };
        assert(r@.tags =~= Seq::<Seq<char>>::empty());
        assert(r@.aliases =~= Seq::<Seq<char>>::empty());
        r
    }
}

pub open spec fn key_tags() -> Seq<char> {
    seq!['t', 'a', 'g', 's']
}

pub open spec fn key_aliases() -> Seq<char> {
    seq!['a', 'l', 'i', 'a', 's', 'e', 's']
}

pub open spec fn key_title() -> Seq<char> {
    seq!['t', 'i', 't', 'l', 'e']
}

pub open spec fn key_date() -> Seq<char> {
    seq!['d', 'a', 't', 'e']
}

pub open spec fn key_created() -> Seq<char> {
    seq!['c', 'r', 'e', 'a', 't', 'e', 'd']
}

/// A line that declares `key`: after leading white space it reads `key:`.
pub open spec fn is_key_line(line: Seq<char>, key: Seq<char>) -> bool {
    starts_with(trim_start(line), key.push(':'))
}

/// The first line at or after `i` that declares `key`.
pub open spec fn first_key_line(ls: Seq<Seq<char>>, key: Seq<char>, i: int) -> Option<int>
    decreases ls.len() - i,
{
    if i < 0 || i >= ls.len() {
        None
    } else if is_key_line(ls[i], key) {
        Some(i)
    } else {
        first_key_line(ls, key, i + 1)
    }
}

/// What follows `key:` on a line that declares `key`, without leading white space.
pub open spec fn value_after_key(line: Seq<char>, key: Seq<char>) -> Seq<char> {
    trim_start(trim_start(line).skip(key.len() + 1int))
}

/// A value with surrounding double quotes, then single quotes, then white
/// space removed.
pub open spec fn unquote(s: Seq<char>) -> Seq<char> {
    trim(trim_char(trim_char(s, '"'), '\''))
}

/// A list item as stored: unquoted and lowercased.
pub open spec fn normalize_item(s: Seq<char>) -> Seq<char> {
    lowercase_text(unquote(s))
}

/// The item, as a one-element list, unless it is empty.
pub open spec fn keep(n: Seq<char>) -> Seq<Seq<char>> {
    if n.len() > 0 {
        seq![n]
    } else {
        seq![]
    }
}

/// The items of the comma-separated text `s`, normalized, empty ones left out.
pub open spec fn inline_items(s: Seq<char>) -> Seq<Seq<char>>
    decreases s.len(),
{
    match find(s, seq![',']) {
        Some(i) => if 0 <= i < s.len() {
            keep(normalize_item(trim(s.take(i)))) + inline_items(s.skip(i + 1))
        } else {
            keep(normalize_item(trim(s)))
        },
        None => keep(normalize_item(trim(s))),
    }
}

/// The items of an inline list `[a, b, ...]`; nothing when `]` is missing.
pub open spec fn inline_list(after: Seq<char>) -> Seq<Seq<char>> {
    match find(after, seq![']']) {
        Some(cb) => inline_items(after.subrange(1, cb)),
        None => seq![],
    }
}

/// The items of a block list, scanning the lines from `i` on.
///
/// Lines before the first line that declares `key` are ignored.  After it,
/// a line `  -item` or `- item` contributes an item, a blank line or an
/// indented line is skipped, and the list ends at `  ---` or at the first
/// unindented line that is neither.
pub open spec fn block_list(ls: Seq<Seq<char>>, key: Seq<char>, i: int, found: bool) -> Seq<
    Seq<char>,
>
    decreases ls.len() - i,
{
    if i < 0 || i >= ls.len() {
        seq![]
    } else {
        let line = ls[i];
        if is_key_line(line, key) {
            block_list(ls, key, i + 1, true)
        } else if !found {
            block_list(ls, key, i + 1, false)
        } else if starts_with(line, seq![' ', ' ', '-']) {
            let item_text = trim_start(line.skip(3));
            if starts_with(item_text, seq!['-']) {
                seq![]
            } else {
                keep(normalize_item(trim(item_text))) + block_list(ls, key, i + 1, true)
            }
        } else if starts_with(line, seq!['-', ' ']) {
            keep(normalize_item(trim(line.skip(2)))) + block_list(ls, key, i + 1, true)
        } else if trim(line).len() == 0 {
            block_list(ls, key, i + 1, true)
        } else if !starts_with(line, seq![' ']) {
            seq![]
        } else {
            block_list(ls, key, i + 1, true)
        }
    }
}

/// The list value of `key` in the YAML text.
///
/// Only the first line that declares `key` counts: an inline list there gives
/// its items; an empty value (or one ending in `:`) gives the block list that
/// follows; any other value gives no items.
pub open spec fn yaml_list(yaml: Seq<char>, key: Seq<char>) -> Seq<Seq<char>> {
    let ls = lines(yaml);
    match first_key_line(ls, key, 0) {
        None => seq![],
        Some(i) => {
            let after = value_after_key(ls[i], key);
            if starts_with(after, seq!['[']) {
                inline_list(after)
            } else if after.len() == 0 || ends_with(after, seq![':']) {
                block_list(ls, key, 0, false)
            } else {
                seq![]
            }
        },
    }
}

/// The scalar value of `key` in the YAML text: the unquoted text after the
/// first `key:`, or nothing when it is absent or empty.
pub open spec fn yaml_scalar(yaml: Seq<char>, key: Seq<char>) -> Option<Seq<char>> {
    let ls = lines(yaml);
    match first_key_line(ls, key, 0) {
        None => None,
        Some(i) => {
            let after = value_after_key(ls[i], key);
            if after.len() == 0 {
                None
            } else if unquote(trim(after)).len() == 0 {
                None
            } else {
                Some(unquote(trim(after)))
            }
        },
    }
}

/// What `parse_frontmatter` returns for the characters of a note.
pub open spec fn frontmatter_of(raw: Seq<char>) -> FrontmatterView {
    match split_frontmatter_spec(raw).0 {
        None => empty_frontmatter(),
        Some(y) => FrontmatterView {
            tags: yaml_list(y, key_tags()),
            aliases: yaml_list(y, key_aliases()),
            title: yaml_scalar(y, key_title()),
            date: match yaml_scalar(y, key_date()) {
                Some(d) => Some(d),
                None => yaml_scalar(y, key_created()),
            },
        },
    }
}

// ---------------------------------------------------------------------
// Executable parsing.
// ---------------------------------------------------------------------

fn key_marker(key: &[char]) -> (m: Vec<char>)
    ensures
        m@ == key@.push(':'),
{
    let mut m = copy_range(key, 0, key.len());
    assert(key@.subrange(0, key@.len() as int) == key@);
    m.push(':');
    m
}

fn is_key_line_exec(line: &[char], marker: &[char], Ghost(key): Ghost<Seq<char>>) -> (b: bool)
    requires
        marker@ == key.push(':'),
    ensures
        b == is_key_line(line@, key),
{
    let t = trim_start_slice(line);
    starts_with_chars(t, marker)
}

fn first_key_line_exec(ls: &Vec<Vec<char>>, marker: &[char], Ghost(key): Ghost<Seq<char>>) -> (r:
    Option<usize>)
    requires
        marker@ == key.push(':'),
    ensures
        match r {
            Some(i) => first_key_line(ls.deep_view(), key, 0) == Some(i as int) && i < ls@.len(),
            None => first_key_line(ls.deep_view(), key, 0) is None,
        },
{
    let mut i: usize = 0;
    while i < ls.len()
        invariant
            i <= ls@.len(),
            marker@ == key.push(':'),
            first_key_line(ls.deep_view(), key, 0) == first_key_line(ls.deep_view(), key, i as int),
        decreases ls.len() - i,
    {
        assert(ls[i as int].deep_view() =~= ls[i as int]@);
        assert(ls.deep_view()[i as int] == ls[i as int]@);
        if is_key_line_exec(ls[i].as_slice(), marker, Ghost(key)) {
            return Some(i);
        }
        i += 1;
    }
    None
}

fn value_after_key_exec<'a>(line: &'a [char], key_len: usize, Ghost(key): Ghost<Seq<char>>) -> (r:
    &'a [char])
    requires
        is_key_line(line@, key),
        key_len == key.len(),
    ensures
        r@ == value_after_key(line@, key),
{
    let t = trim_start_slice(line);
    let tl = t.len();
    assert(key_len + 1 <= tl);
    let rest = slice_from(t, key_len + 1);
    trim_start_slice(rest)
}

fn unquote_slice(s: &[char]) -> (r: &[char])
    ensures
        r@ == unquote(s@),
{
    let a = trim_char_slice(s, '"');
    let b = trim_char_slice(a, '\'');
    trim_slice(b)
}

/// Normalizes `s` into an item and appends it unless it is empty.
fn push_item(out: &mut Vec<String>, s: &[char])
    ensures
        final(out).deep_view() == old(out).deep_view() + keep(normalize_item(s@)),
{
    let u = unquote_slice(s);
    let n = lowercase_chars(u);
    let ghost old_dv = out.deep_view();
    if !n.as_str().is_empty() {
        out.push(n);
        assert(out.deep_view() =~= old_dv + keep(normalize_item(s@)));
    } else {
        assert(keep(normalize_item(s@)) =~= Seq::<Seq<char>>::empty());
        assert(out.deep_view() =~= old_dv + keep(normalize_item(s@)));
    }
}

fn inline_items_exec(out: &mut Vec<String>, s: &[char])
    ensures
        final(out).deep_view() == old(out).deep_view() + inline_items(s@),
{
    let mut pos: usize = 0;
    let n = s.len();
    assert(s@.skip(0) == s@);
    loop
        invariant
            n == s@.len(),
            pos <= s@.len(),
            out.deep_view() + inline_items(s@.skip(pos as int)) == old(out).deep_view()
                + inline_items(s@),
        decreases s@.len() - pos,
    {
        let rest = slice_from(s, pos);
        let ghost before = out.deep_view();
        match find_char_at(rest, ',', 0) {
            Some(i) => {
                proof {
                    lemma_find_from(rest@, seq![','], 0);
                }
                let piece = trim_slice(crate::text::slice_to(rest, i));
                push_item(out, piece);
                assert(rest@.skip(i + 1) == s@.skip(pos + i + 1));
                assert(before + inline_items(rest@) =~= out.deep_view() + inline_items(
                    rest@.skip(i + 1),
                ));
                pos = pos + i + 1;
            },
            None => {
                let piece = trim_slice(rest);
                push_item(out, piece);
                assert(before + inline_items(rest@) =~= out.deep_view());
                return;
            },
        }
    }
}

fn block_list_exec(ls: &Vec<Vec<char>>, marker: &[char], Ghost(key): Ghost<Seq<char>>) -> (r: Vec<
    String,
>)
    requires
        marker@ == key.push(':'),
    ensures
        r.deep_view() == block_list(ls.deep_view(), key, 0, false),
{
    let mut out: Vec<String> = Vec::new();
    let mut found = false;
    let mut j: usize = 0;
    let ghost dv = ls.deep_view();
    assert(out.deep_view() =~= Seq::<Seq<char>>::empty());
    let two_space_dash = [' ', ' ', '-'];
    let dash_space = ['-', ' '];
    let dash = ['-'];
    let space = [' '];
    assert(two_space_dash@ =~= seq![' ', ' ', '-']);
    assert(dash_space@ =~= seq!['-', ' ']);
    assert(dash@ =~= seq!['-']);
    assert(space@ =~= seq![' ']);
    while j < ls.len()
        invariant
            j <= ls@.len(),
            dv == ls.deep_view(),
            marker@ == key.push(':'),
            two_space_dash@ == seq![' ', ' ', '-'],
            dash_space@ == seq!['-', ' '],
            dash@ == seq!['-'],
            space@ == seq![' '],
            out.deep_view() + block_list(dv, key, j as int, found) == block_list(dv, key, 0, false),
        decreases ls.len() - j,
    {
        let line = ls[j].as_slice();
        assert(ls[j as int].deep_view() =~= ls[j as int]@);
        assert(dv[j as int] == line@);
        let ghost before = out.deep_view();
        if is_key_line_exec(line, marker, Ghost(key)) {
            found = true;
        } else if !found {
        } else if starts_with_chars(line, &two_space_dash) {
            let item_text = trim_start_slice(slice_from(line, 3));
            if starts_with_chars(item_text, &dash) {
                assert(before + block_list(dv, key, j as int, found) =~= before);
                return out;
            }
            push_item(&mut out, trim_slice(item_text));
            assert(before + block_list(dv, key, j as int, found) =~= out.deep_view() + block_list(
                dv,
                key,
                j + 1,
                true,
            ));
        } else if starts_with_chars(line, &dash_space) {
            push_item(&mut out, trim_slice(slice_from(line, 2)));
            assert(before + block_list(dv, key, j as int, found) =~= out.deep_view() + block_list(
                dv,
                key,
                j + 1,
                true,
            ));
        } else if trim_slice(line).len() == 0 {
        } else if !starts_with_chars(line, &space) {
            assert(before + block_list(dv, key, j as int, found) =~= before);
            return out;
        }
        j += 1;
    }
    assert(out.deep_view() + block_list(dv, key, j as int, found) =~= out.deep_view());
    out
}

/// Extract a YAML list field value for a given key.
///
/// Handles both inline and block list formats:
/// - Inline: `tags: [rust, testing, obsidian]` → `["rust", "testing", "obsidian"]`
/// - Block:  `tags:\n  - rust\n  - testing` → `["rust", "testing"]`
///
/// Each value is normalized: trimmed, lowercased, and empty ones are left out.
/// Surrounding quotes are stripped if present.
pub fn parse_yaml_list(yaml: &str, key: &str) -> (r: Vec<String>)
    ensures
        r.deep_view() == yaml_list(yaml@, key@),
{
    let ys = chars_of(yaml);
    let ks = chars_of(key);
    let ls = lines_of(ys.as_slice());
    let marker = key_marker(ks.as_slice());
    let ghost dv = ls.deep_view();
    match first_key_line_exec(&ls, marker.as_slice(), Ghost(key@)) {
        None => {
            let r: Vec<String> = Vec::new();
            assert(r.deep_view() =~= Seq::<Seq<char>>::empty());
            r
        },
        Some(i) => {
            proof {
                lemma_first_key_line(dv, key@, 0);
            }
            let line = ls[i].as_slice();
            assert(ls[i as int].deep_view() =~= ls[i as int]@);
            let after = value_after_key_exec(line, ks.len(), Ghost(key@));
            let open_bracket = ['['];
            let colon = [':'];
            assert(open_bracket@ =~= seq!['[']);
            assert(colon@ =~= seq![':']);
            if starts_with_chars(after, &open_bracket) {
                let mut r: Vec<String> = Vec::new();
                assert(r.deep_view() =~= Seq::<Seq<char>>::empty());
                match find_char_at(after, ']', 0) {
                    Some(cb) => {
                        proof {
                            lemma_find_from(after@, seq![']'], 0);
                        }
                        assert(cb >= 1);
                        let content = crate::text::slice_to(after, cb);
                        let content = slice_from(content, 1);
                        assert(content@ =~= after@.subrange(1, cb as int));
                        inline_items_exec(&mut r, content);
                        assert(r.deep_view() =~= inline_items(after@.subrange(1, cb as int)));
                    },
                    None => {},
                }
                r
            } else if after.len() == 0 || ends_with_chars(after, &colon) {
                block_list_exec(&ls, marker.as_slice(), Ghost(key@))
            } else {
                let r: Vec<String> = Vec::new();
                assert(r.deep_view() =~= Seq::<Seq<char>>::empty());
                r
            }
        },
    }
}

/// Extract a simple scalar YAML field for a given key.
///
/// Handles: `key: value`.  Returns the value part after the colon, trimmed,
/// with surrounding quotes stripped; `None` if the key is absent or has no
/// value.
pub fn parse_yaml_scalar(yaml: &str, key: &str) -> (r: Option<String>)
    ensures
        opt_string_view(r) == yaml_scalar(yaml@, key@),
{
    let ys = chars_of(yaml);
    let ks = chars_of(key);
    let ls = lines_of(ys.as_slice());
    let marker = key_marker(ks.as_slice());
    let ghost dv = ls.deep_view();
    match first_key_line_exec(&ls, marker.as_slice(), Ghost(key@)) {
        None => None,
        Some(i) => {
            proof {
                lemma_first_key_line(dv, key@, 0);
            }
            let line = ls[i].as_slice();
            assert(ls[i as int].deep_view() =~= ls[i as int]@);
            let after = value_after_key_exec(line, ks.len(), Ghost(key@));
            if after.len() == 0 {
                return None;
            }
            let v = unquote_slice(trim_slice(after));
            if v.len() == 0 {
                return None;
            }
            let w = copy_range(v, 0, v.len());
            assert(v@.subrange(0, v@.len() as int) == v@);
            Some(string_from_chars(w))
        },
    }
}

/// Parse `NoteFrontmatter` from the raw Markdown content of a note.
///
/// Splits off the frontmatter block with [`split_frontmatter`], then reads
/// `tags`, `aliases`, `title` and `date` (falling back to `created`).
/// Without a frontmatter block every field is empty.  Never fails.
pub fn parse_frontmatter(raw: &str) -> (r: NoteFrontmatter)
    ensures
        r@ == frontmatter_of(raw@),
{
    let (yaml_opt, _body) = split_frontmatter(raw);
    let yaml = match yaml_opt {
        Some(y) => y,
        None => return NoteFrontmatter::default(),
    };
    proof {
        reveal_strlit("tags");
        reveal_strlit("aliases");
        reveal_strlit("title");
        reveal_strlit("date");
        reveal_strlit("created");
    }
    assert("tags"@ =~= key_tags());
    assert("aliases"@ =~= key_aliases());
    assert("title"@ =~= key_title());
    assert("date"@ =~= key_date());
    assert("created"@ =~= key_created());
    let tags = parse_yaml_list(yaml, "tags");
    let aliases = parse_yaml_list(yaml, "aliases");
    let title = parse_yaml_scalar(yaml, "title");
    let date = match parse_yaml_scalar(yaml, "date") {
        Some(d) => Some(d),
        None => parse_yaml_scalar(yaml, "created"),
    };
    NoteFrontmatter { tags, aliases, title, date }
}

proof fn lemma_first_key_line(ls: Seq<Seq<char>>, key: Seq<char>, i: int)
    requires
        0 <= i,
    ensures
        first_key_line(ls, key, i) matches Some(j) ==> i <= j < ls.len() && is_key_line(
            ls[j],
            key,
        ),
    decreases ls.len() - i,
{
    if i < ls.len() && !is_key_line(ls[i], key) {
        lemma_first_key_line(ls, key, i + 1);
    }
}

/// Every item is non-empty and normalized: the lowercased form of a text
/// that is its own trim.
pub open spec fn all_normalized(xs: Seq<Seq<char>>) -> bool {
    forall|i: int|
        0 <= i < xs.len() ==> (#[trigger] xs[i]).len() > 0 && exists|t: Seq<char>|
            trim(t) == t && #[trigger] lowercase_text(t) == xs[i]
}

proof fn lemma_keep_normalized(t: Seq<char>)
    ensures
        all_normalized(keep(normalize_item(t))),
{
    let k = keep(normalize_item(t));
    let u = unquote(t);
    crate::text::lemma_trim_idempotent(trim_char(trim_char(t, '"'), '\''));
    assert forall|i: int| 0 <= i < k.len() implies (#[trigger] k[i]).len() > 0 && exists|w: Seq<char>|
        trim(w) == w && #[trigger] lowercase_text(w) == k[i] by {
        assert(lowercase_text(u) == k[i]);
    }
}

proof fn lemma_concat_normalized(a: Seq<Seq<char>>, b: Seq<Seq<char>>)
    requires
        all_normalized(a),
        all_normalized(b),
    ensures
        all_normalized(a + b),
{
    assert forall|i: int| 0 <= i < (a + b).len() implies (#[trigger] (a + b)[i]).len() > 0
        && exists|u: Seq<char>| trim(u) == u && #[trigger] lowercase_text(u) == (a + b)[i] by {
        if i < a.len() {
            assert((a + b)[i] == a[i]);
        } else {
            assert((a + b)[i] == b[i - a.len()]);
        }
    }
}

proof fn lemma_inline_items_normalized(s: Seq<char>)
    ensures
        all_normalized(inline_items(s)),
    decreases s.len(),
{
    match find(s, seq![',']) {
        Some(i) => if 0 <= i < s.len() {
            lemma_keep_normalized(trim(s.take(i)));
            lemma_inline_items_normalized(s.skip(i + 1));
            lemma_concat_normalized(keep(normalize_item(trim(s.take(i)))), inline_items(s.skip(i + 1)));
        } else {
            lemma_keep_normalized(trim(s));
        },
        None => lemma_keep_normalized(trim(s)),
    }
}

proof fn lemma_block_list_normalized(ls: Seq<Seq<char>>, key: Seq<char>, i: int, found: bool)
    ensures
        all_normalized(block_list(ls, key, i, found)),
    decreases ls.len() - i,
{
    if 0 <= i < ls.len() {
        let line = ls[i];
        if is_key_line(line, key) {
            lemma_block_list_normalized(ls, key, i + 1, true);
        } else if !found {
            lemma_block_list_normalized(ls, key, i + 1, false);
        } else if starts_with(line, seq![' ', ' ', '-']) {
            let item_text = trim_start(line.skip(3));
            if !starts_with(item_text, seq!['-']) {
                lemma_keep_normalized(trim(item_text));
                lemma_block_list_normalized(ls, key, i + 1, true);
                lemma_concat_normalized(keep(normalize_item(trim(item_text))), block_list(ls, key, i + 1, true));
            }
        } else if starts_with(line, seq!['-', ' ']) {
            lemma_keep_normalized(trim(line.skip(2)));
            lemma_block_list_normalized(ls, key, i + 1, true);
            lemma_concat_normalized(keep(normalize_item(trim(line.skip(2)))), block_list(ls, key, i + 1, true));
        } else if trim(line).len() == 0 {
            lemma_block_list_normalized(ls, key, i + 1, true);
        } else if starts_with(line, seq![' ']) {
            lemma_block_list_normalized(ls, key, i + 1, true);
        }
    }
}

/// Tags and aliases are normalized: each is non-empty and is the lowercased
/// form of an unquoted text that is its own trim; empty items are left out.
pub proof fn law_list_items_normalized(yaml: Seq<char>, key: Seq<char>)
    ensures
        all_normalized(yaml_list(yaml, key)),
{
    let ls = lines(yaml);
    match first_key_line(ls, key, 0) {
        None => {},
        Some(i) => {
            let after = value_after_key(ls[i], key);
            if starts_with(after, seq!['[']) {
                match find(after, seq![']']) {
                    Some(cb) => lemma_inline_items_normalized(after.subrange(1, cb)),
                    None => {},
                }
            } else if after.len() == 0 || ends_with(after, seq![':']) {
                lemma_block_list_normalized(ls, key, 0, false);
            }
        },
    }
}

/// Parsing never fails: a note without a frontmatter block has no tags,
/// aliases, title or date; a note with one has normalized tags and aliases,
/// and a title and date that are non-empty and trimmed where present.
pub proof fn law_frontmatter_total(raw: Seq<char>)
    ensures
        split_frontmatter_spec(raw).0 is None ==> frontmatter_of(raw) == empty_frontmatter(),
        all_normalized(frontmatter_of(raw).tags),
        all_normalized(frontmatter_of(raw).aliases),
        frontmatter_of(raw).title matches Some(v) ==> v.len() > 0 && trim(v) == v,
        frontmatter_of(raw).date matches Some(v) ==> v.len() > 0 && trim(v) == v,
{
    match split_frontmatter_spec(raw).0 {
        None => {},
        Some(y) => {
            law_list_items_normalized(y, key_tags());
            law_list_items_normalized(y, key_aliases());
            law_scalar_trimmed(y, key_title());
            law_scalar_trimmed(y, key_date());
            law_scalar_trimmed(y, key_created());
        },
    }
}

/// A scalar value, when there is one, is non-empty and already trimmed;
/// there is none where no line starts with the key and a colon.
pub proof fn law_scalar_trimmed(yaml: Seq<char>, key: Seq<char>)
    ensures
        yaml_scalar(yaml, key) matches Some(v) ==> v.len() > 0 && trim(v) == v,
        (forall|j: int| 0 <= j < lines(yaml).len() ==> !is_key_line(#[trigger] lines(yaml)[j], key))
            ==> yaml_scalar(yaml, key) is None,
{
    let ls = lines(yaml);
    lemma_first_key_line(ls, key, 0);
    match first_key_line(ls, key, 0) {
        None => {},
        Some(i) => {
            let after = value_after_key(ls[i], key);
            crate::text::lemma_trim_idempotent(trim_char(trim_char(trim(after), '"'), '\''));
        },
    }
}

} // verus!

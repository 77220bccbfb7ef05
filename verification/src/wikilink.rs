//! Wikilink helpers for the editor: the wikilink under the cursor and the
//! targets that open outside the app.
use vstd::prelude::*;
use vstd::utf8::{
    decode_utf8, encode_utf8, encode_utf8_decode_utf8, encode_utf8_valid_utf8, is_char_boundary,
    length_of_first_scalar, pop_first_scalar, valid_utf8, decode_utf8_first_scalar,
    decode_first_scalar, take_first_scalar,
};
use vstd::string::StringSliceAdditionalSpecFns;
use crate::text::{chars_of, copy_range, find, find_char_at, lemma_find_from, lowercase_text, slice_from, to_lowercase};

verus! {

/// Whether bytes `i` and `i + 1` of `b` both equal `x`.
pub open spec fn is_pair_at(b: Seq<u8>, i: int, x: u8) -> bool {
    0 <= i && i + 1 < b.len() && b[i] == x && b[i + 1] == x
}

/// Scanning down from position `i`: the position just after the nearest
/// `[[`, or nothing when a `]]` comes first or there is none.
pub open spec fn opening_before(b: Seq<u8>, i: int) -> Option<int>
    decreases i + 1,
{
    if i < 0 {
        None
    } else if is_pair_at(b, i, 0x5B) {
        Some(i + 2)
    } else if is_pair_at(b, i, 0x5D) {
        None
    } else {
        opening_before(b, i - 1)
    }
}

/// Scanning up from position `i`: the position of the first `]]`.
pub open spec fn closing_from(b: Seq<u8>, i: int) -> Option<int>
    decreases b.len() - i,
{
    if i < 0 || i + 1 >= b.len() {
        None
    } else if is_pair_at(b, i, 0x5D) {
        Some(i)
    } else {
        closing_from(b, i + 1)
    }
}

/// The first position in `[i, end)` that holds byte `x`, or `end`.
pub open spec fn first_byte_from(b: Seq<u8>, x: u8, i: int, end: int) -> int
    decreases end - i,
{
    if i >= end {
        end
    } else if b[i] == x {
        i
    } else {
        first_byte_from(b, x, i + 1, end)
    }
}

/// The byte range of the wikilink target under the byte offset `cursor`:
/// from just after the nearest `[[` before the cursor (with no `]]` in
/// between) up to the first `|` or the first `]]` after it.
pub open spec fn link_at_cursor(b: Seq<u8>, cursor: int) -> Option<(int, int)> {
    if cursor > b.len() || cursor < 2 {
        None
    } else {
        match opening_before(b, cursor - 1) {
            None => None,
            Some(start) => match closing_from(b, start) {
                None => None,
                Some(i) => Some((start, first_byte_from(b, 0x7C, start, i))),
            },
        }
    }
}

proof fn lemma_continuation_above_first(b: Seq<u8>, k: int)
    requires
        valid_utf8(b),
        b.len() > 0,
        1 <= k < length_of_first_scalar(b),
    ensures
        b[k] >= 0x80,
{
}

/// In valid UTF-8, an ASCII byte starts a character.
proof fn lemma_ascii_is_boundary(b: Seq<u8>, p: int)
    requires
        valid_utf8(b),
        0 <= p < b.len(),
        b[p] < 0x80,
    ensures
        is_char_boundary(b, p),
    decreases b.len(),
{
    if p > 0 {
        let l = length_of_first_scalar(b);
        if p < l {
            lemma_continuation_above_first(b, p);
        }
        let tail = pop_first_scalar(b);
        assert(tail.len() == b.len() - l);
        if p > l {
            assert(tail[p - l] == b[p]);
            lemma_ascii_is_boundary(tail, p - l);
        }
    }
}

/// In valid UTF-8, the position after an ASCII byte starts a character (or
/// is the end).
proof fn lemma_after_ascii_is_boundary(b: Seq<u8>, p: int)
    requires
        valid_utf8(b),
        0 < p <= b.len(),
        b[p - 1] < 0x80,
    ensures
        is_char_boundary(b, p),
    decreases b.len(),
{
    let l = length_of_first_scalar(b);
    let tail = pop_first_scalar(b);
    assert(tail.len() == b.len() - l);
    assert(valid_utf8(tail));
    if p - 1 == 0 {
        assert(l == 1);
        assert(is_char_boundary(tail, 0));
        assert(is_char_boundary(b, p) == is_char_boundary(tail, p - l));
    } else {
        if p - 1 < l {
            lemma_continuation_above_first(b, p - 1);
        }
        assert(tail[p - l - 1] == b[p - 1]);
        lemma_after_ascii_is_boundary(tail, p - l);
    }
}

fn opening_before_exec(bytes: &[u8], from: usize) -> (r: Option<usize>)
    requires
        from <= bytes@.len(),
    ensures
        opt_usize(r) == opening_before(bytes@, from - 1),
{
    let len = bytes.len();
    let mut i = from;
    while i > 0
        invariant
            len == bytes@.len(),
            i <= from <= len,
            opening_before(bytes@, from - 1) == opening_before(bytes@, i - 1),
        decreases i,
    {
        let j = i - 1;
        if j + 1 < len && bytes[j] == 0x5B && bytes[j + 1] == 0x5B {
            return Some(j + 2);
        }
        if j + 1 < len && bytes[j] == 0x5D && bytes[j + 1] == 0x5D {
            return None;
        }
        i = j;
    }
    None
}

fn closing_from_exec(bytes: &[u8], from: usize) -> (r: Option<usize>)
    ensures
        opt_usize(r) == closing_from(bytes@, from as int),
{
    let len = bytes.len();
    let mut k = from;
    while k < len && k + 1 < len
        invariant
            len == bytes@.len(),
            from <= k,
            closing_from(bytes@, from as int) == closing_from(bytes@, k as int),
        decreases len - k,
    {
        if bytes[k] == 0x5D && bytes[k + 1] == 0x5D {
            return Some(k);
        }
        k += 1;
    }
    None
}

fn first_byte_from_exec(bytes: &[u8], x: u8, from: usize, end: usize) -> (r: usize)
    requires
        from <= end <= bytes@.len(),
    ensures
        r as int == first_byte_from(bytes@, x, from as int, end as int),
        from <= r <= end,
        r < end ==> bytes@[r as int] == x,
{
    let mut q = from;
    while q < end && bytes[q] != x
        invariant
            from <= q <= end <= bytes@.len(),
            first_byte_from(bytes@, x, from as int, end as int) == first_byte_from(
                bytes@,
                x,
                q as int,
                end as int,
            ),
        decreases end - q,
    {
        q += 1;
    }
    q
}

/// Extract a wikilink target at the given cursor position (a byte offset)
/// in raw Markdown.
///
/// Scans backwards from `cursor` for `[[` and forwards for `]]`.  Returns
/// the target (before `|` if aliased) if the cursor is inside a wikilink.
pub fn extract_wikilink_at_cursor(text: &str, cursor: usize) -> (r: Option<String>)
    ensures
        match link_at_cursor(text.spec_bytes(), cursor as int) {
            Some((a, e)) => r is Some && 0 <= a <= e <= text.spec_bytes().len() && r->0@
                == decode_utf8(text.spec_bytes().subrange(a, e)),
            None => r is None,
        },
        r matches Some(t) ==> forall|k: int| 0 <= k < t@.len() ==> #[trigger] t@[k] != '|',
        r matches Some(t) ==> forall|k: int|
            0 <= k && k + 1 < t@.len() ==> !(#[trigger] t@[k] == ']' && t@[k + 1] == ']'),
{
    let bytes = text.as_bytes();
    let ghost b = text.spec_bytes();
    let len = bytes.len();
    if cursor > len || cursor < 2 {
        return None;
    }
    let start = match opening_before_exec(bytes, cursor) {
        Some(s) => s,
        None => return None,
    };
    proof {
        lemma_opening_before(b, cursor - 1);
    }
    let close = match closing_from_exec(bytes, start) {
        Some(k) => k,
        None => return None,
    };
    proof {
        lemma_closing_from(b, start as int);
    }
    let q = first_byte_from_exec(bytes, 0x7C, start, close);
    proof {
        encode_utf8_valid_utf8(text@);
        assert(valid_utf8(b));
        lemma_ascii_is_boundary(b, q as int);
    }
    let (head, _) = text.split_at(q);
    proof {
        encode_utf8_valid_utf8(head@);
        assert(head.spec_bytes() =~= b.subrange(0, q as int));
        assert(head.spec_bytes()[start - 1] == b[start - 1]);
        lemma_after_ascii_is_boundary(head.spec_bytes(), start as int);
    }
    let (_, mid) = head.split_at(start);
    proof {
        assert(mid.spec_bytes() =~= b.subrange(start as int, q as int));
        encode_utf8_decode_utf8(mid@);
        encode_utf8_valid_utf8(mid@);
        let m = mid.spec_bytes();
        lemma_first_byte_from(b, 0x7C, start as int, close as int);
        assert forall|j: int| 0 <= j < m.len() implies #[trigger] m[j] as u32 != '|' as u32 by {
            assert(m[j] == b[start + j]);
        }
        lemma_no_ascii_char(m, '|');
        assert forall|j: int| !#[trigger] is_pair_at(m, j, 0x5D) by {
            if 0 <= j && j + 1 < m.len() {
                assert(m[j] == b[start + j] && m[j + 1] == b[start + j + 1]);
                assert(!is_pair_at(b, start + j, 0x5D));
            }
        }
        lemma_no_closing_pair(m);
    }
    Some(mid.to_owned())
}

/// File extensions that open in the system's default application.
pub open spec fn is_external_extension(e: Seq<char>) -> bool {
    ||| e == "html"@
    ||| e == "htm"@
    ||| e == "pdf"@
    ||| e == "png"@
    ||| e == "jpg"@
    ||| e == "jpeg"@
    ||| e == "svg"@
    ||| e == "gif"@
    ||| e == "mp4"@
    ||| e == "mp3"@
    ||| e == "wav"@
    ||| e == "ogg"@
    ||| e == "webm"@
    ||| e == "webp"@
    ||| e == "xlsx"@
    ||| e == "docx"@
    ||| e == "pptx"@
    ||| e == "csv"@
    ||| e == "zip"@
    ||| e == "7z"@
    ||| e == "tar"@
    ||| e == "gz"@
}

/// The text before the first `#` (a heading fragment), or all of it.
pub open spec fn before_hash(s: Seq<char>) -> Seq<char> {
    match find(s, seq!['#']) {
        Some(i) => s.take(i),
        None => s,
    }
}

/// The last position of `c` in `s`.
pub open spec fn rfind_char(s: Seq<char>, c: char) -> Option<int>
    decreases s.len(),
{
    if s.len() == 0 {
        None
    } else if s.last() == c {
        Some(s.len() - 1)
    } else {
        rfind_char(s.drop_last(), c)
    }
}

/// The extension of a name: the text after its last `.`, or none when it
/// has no `.`.
pub open spec fn extension_of(s: Seq<char>) -> Option<Seq<char>> {
    match rfind_char(s, '.') {
        Some(i) => Some(s.skip(i + 1)),
        None => None,
    }
}

/// Whether a wikilink target names a file to open outside the app: its
/// lowercase form, heading fragment removed, has an extension, and that
/// extension is one of the external ones.  A name without a `.` has no
/// extension and is not external.
pub open spec fn is_external_target(target: Seq<char>) -> bool {
    match extension_of(before_hash(lowercase_text(target))) {
        Some(e) => is_external_extension(e),
        None => false,
    }
}

pub proof fn lemma_rfind_char(s: Seq<char>, c: char)
    ensures
        rfind_char(s, c) matches Some(i) ==> 0 <= i < s.len() && s[i] == c,
    decreases s.len(),
{
    if s.len() > 0 && s.last() != c {
        lemma_rfind_char(s.drop_last(), c);
    }
}

/// The last position of `c` in `s`.
pub fn rfind_char_exec(s: &[char], c: char) -> (r: Option<usize>)
    ensures
        opt_usize(r) == rfind_char(s@, c),
{
    let mut i = s.len();
    assert(s@.take(i as int) == s@);
    while i > 0
        invariant
            i <= s@.len(),
            rfind_char(s@, c) == rfind_char(s@.take(i as int), c),
        decreases i,
    {
        assert(s@.take(i as int).drop_last() == s@.take(i - 1));
        if s[i - 1] == c {
            return Some(i - 1);
        }
        i -= 1;
    }
    None
}

pub open spec fn opt_usize(o: Option<usize>) -> Option<int> {
    match o {
        Some(i) => Some(i as int),
        None => None,
    }
}

pub fn eq_chars(a: &[char], b: &[char]) -> (r: bool)
    ensures
        r == (a@ == b@),
{
    if a.len() != b.len() {
        return false;
    }
    let mut i: usize = 0;
    while i < a.len()
        invariant
            a@.len() == b@.len(),
            i <= a@.len(),
            forall|m: int| 0 <= m < i ==> a@[m] == b@[m],
        decreases a.len() - i,
    {
        if a[i] != b[i] {
            return false;
        }
        i += 1;
    }
    assert(a@ =~= b@);
    true
}

fn is_in(e: &[char], word: &str) -> (r: bool)
    ensures
        r == (e@ == word@),
{
    let w = chars_of(word);
    eq_chars(e, w.as_slice())
}

/// Check if a wikilink target refers to a non-Markdown file that should be
/// opened in the user's default application (browser for `.html`, etc.).
pub fn is_external_file(target: &str) -> (b: bool)
    ensures
        b == is_external_target(target@),
{
    let lower = to_lowercase(target);
    let lc = chars_of(lower.as_str());
    let stem = match find_char_at(lc.as_slice(), '#', 0) {
        Some(i) => {
            proof {
                lemma_find_from(lc@, seq!['#'], 0);
            }
            crate::text::slice_to(lc.as_slice(), i)
        },
        None => lc.as_slice(),
    };
    assert(stem@ == before_hash(lowercase_text(target@)));
    let ext = match rfind_char_exec(stem, '.') {
        Some(i) => {
            proof {
                lemma_rfind_char(stem@, '.');
            }
            slice_from(stem, i + 1)
        },
        None => {
            return false;
        },
    };
    assert(extension_of(stem@) == Some(ext@));
    is_in(ext, "html") || is_in(ext, "htm") || is_in(ext, "pdf") || is_in(ext, "png") || is_in(
        ext,
        "jpg",
    ) || is_in(ext, "jpeg") || is_in(ext, "svg") || is_in(ext, "gif") || is_in(ext, "mp4")
        || is_in(ext, "mp3") || is_in(ext, "wav") || is_in(ext, "ogg") || is_in(ext, "webm")
        || is_in(ext, "webp") || is_in(ext, "xlsx") || is_in(ext, "docx") || is_in(ext, "pptx")
        || is_in(ext, "csv") || is_in(ext, "zip") || is_in(ext, "7z") || is_in(ext, "tar")
        || is_in(ext, "gz")
}

proof fn lemma_opening_before(b: Seq<u8>, i: int)
    ensures
        opening_before(b, i) matches Some(s) ==> {
            &&& 2 <= s <= i + 2
            &&& is_pair_at(b, s - 2, 0x5B)
            &&& forall|j: int| s - 2 < j <= i ==> !#[trigger] is_pair_at(b, j, 0x5D)
        },
    decreases i + 1,
{
    if i >= 0 && !is_pair_at(b, i, 0x5B) && !is_pair_at(b, i, 0x5D) {
        lemma_opening_before(b, i - 1);
    }
}

proof fn lemma_closing_from(b: Seq<u8>, i: int)
    ensures
        closing_from(b, i) matches Some(c) ==> {
            &&& i <= c
            &&& is_pair_at(b, c, 0x5D)
            &&& forall|j: int| i <= j < c ==> !#[trigger] is_pair_at(b, j, 0x5D)
        },
    decreases b.len() - i,
{
    if 0 <= i && i + 1 < b.len() && !is_pair_at(b, i, 0x5D) {
        lemma_closing_from(b, i + 1);
    }
}

proof fn lemma_first_byte_from(b: Seq<u8>, x: u8, i: int, end: int)
    requires
        i <= end,
    ensures
        i <= first_byte_from(b, x, i, end) <= end,
        forall|j: int| i <= j < first_byte_from(b, x, i, end) ==> #[trigger] b[j] != x,
    decreases end - i,
{
    if i < end && b[i] != x {
        lemma_first_byte_from(b, x, i + 1, end);
    }
}

/// The text at the cursor lies right after a `[[` that comes before the
/// cursor, with no `]]` between that `[[` and the cursor; it holds no `|`
/// and no `]]`, and a `]]` follows it (after an alias, if any).  These are
/// the bytes whose text `extract_wikilink_at_cursor` returns.
pub proof fn law_link_at_cursor(b: Seq<u8>, cursor: int)
    ensures
        link_at_cursor(b, cursor) matches Some((s, e)) ==> {
            &&& 2 <= s <= cursor + 1
            &&& s <= e <= b.len()
            &&& is_pair_at(b, s - 2, 0x5B)
            &&& forall|j: int| s - 2 < j < cursor ==> !#[trigger] is_pair_at(b, j, 0x5D)
            &&& forall|j: int| s <= j < e ==> #[trigger] b[j] != 0x7C
            &&& forall|j: int| s <= j < e ==> !#[trigger] is_pair_at(b, j, 0x5D)
            &&& exists|c: int| e <= c && #[trigger] is_pair_at(b, c, 0x5D)
        },
{
    if 2 <= cursor <= b.len() {
        lemma_opening_before(b, cursor - 1);
        match opening_before(b, cursor - 1) {
            None => {},
            Some(start) => {
                lemma_closing_from(b, start);
                match closing_from(b, start) {
                    None => {},
                    Some(c) => {
                        lemma_first_byte_from(b, 0x7C, start, c);
                        assert(is_pair_at(b, c, 0x5D));
                    },
                }
            },
        }
    }
}

/// A first character that is ASCII is encoded by one byte, its own code.
proof fn lemma_first_scalar_ascii(m: Seq<u8>, c: char)
    requires
        valid_utf8(m),
        m.len() > 0,
        decode_utf8(m)[0] == c,
        (c as u32) < 0x80,
    ensures
        length_of_first_scalar(m) == 1,
        m[0] as u32 == c as u32,
{
    decode_utf8_first_scalar(m);
    let v = c as u32;
    assert(decode_first_scalar(m) as char == c);
    assert(v & 0x7F == v) by (bit_vector)
        requires
            v < 0x80,
    ;
    assert(take_first_scalar(m).len() == length_of_first_scalar(m));
    assert(take_first_scalar(m)[0] == m[0]);
}

/// Decoding bytes none of which is the code of an ASCII character `c`
/// gives no `c`.
proof fn lemma_no_ascii_char(m: Seq<u8>, c: char)
    requires
        valid_utf8(m),
        (c as u32) < 0x80,
        forall|j: int| 0 <= j < m.len() ==> #[trigger] m[j] as u32 != c as u32,
    ensures
        forall|k: int| 0 <= k < decode_utf8(m).len() ==> #[trigger] decode_utf8(m)[k] != c,
    decreases m.len(),
{
    if m.len() > 0 {
        let tail = pop_first_scalar(m);
        let l = length_of_first_scalar(m);
        assert forall|j: int| 0 <= j < tail.len() implies #[trigger] tail[j] as u32 != c as u32 by {
            assert(tail[j] == m[j + l]);
        }
        lemma_no_ascii_char(tail, c);
        let d = decode_utf8(m);
        assert(d == seq![decode_first_scalar(m) as char] + decode_utf8(tail));
        assert forall|k: int| 0 <= k < d.len() implies #[trigger] d[k] != c by {
            if k == 0 {
                if d[0] == c {
                    lemma_first_scalar_ascii(m, c);
                }
            } else {
                assert(d[k] == decode_utf8(tail)[k - 1]);
            }
        }
    }
}

/// Decoding bytes with no two `]` bytes in a row gives no two `]` in a row.
proof fn lemma_no_closing_pair(m: Seq<u8>)
    requires
        valid_utf8(m),
        forall|j: int| !#[trigger] is_pair_at(m, j, 0x5D),
    ensures
        forall|k: int|
            0 <= k && k + 1 < decode_utf8(m).len() ==> !(#[trigger] decode_utf8(m)[k] == ']'
                && decode_utf8(m)[k + 1] == ']'),
    decreases m.len(),
{
    if m.len() > 0 {
        let tail = pop_first_scalar(m);
        let l = length_of_first_scalar(m);
        assert forall|j: int| !#[trigger] is_pair_at(tail, j, 0x5D) by {
            if 0 <= j && j + 1 < tail.len() {
                assert(tail[j] == m[j + l] && tail[j + 1] == m[j + l + 1]);
                assert(!is_pair_at(m, j + l, 0x5D));
            }
        }
        lemma_no_closing_pair(tail);
        let d = decode_utf8(m);
        let dt = decode_utf8(tail);
        assert(d == seq![decode_first_scalar(m) as char] + dt);
        assert forall|k: int| 0 <= k && k + 1 < d.len() implies !(#[trigger] d[k] == ']' && d[k
            + 1] == ']') by {
            if k == 0 {
                if d[0] == ']' && d[1] == ']' {
                    lemma_first_scalar_ascii(m, ']');
                    assert(dt[0] == ']');
                    assert(tail.len() > 0);
                    lemma_first_scalar_ascii(tail, ']');
                    assert(tail[0] == m[1]);
                    assert(is_pair_at(m, 0, 0x5D));
                }
            } else {
                assert(d[k] == dt[k - 1]);
                assert(d[k + 1] == dt[k]);
            }
        }
    }
}

/// The scan down from `i` stops at the `[[` at `o` when no `[[` or `]]`
/// lies in between.
proof fn lemma_opening_at(b: Seq<u8>, o: int, i: int)
    requires
        o <= i,
        is_pair_at(b, o, 0x5B),
        forall|j: int| o < j <= i ==> !#[trigger] is_pair_at(b, j, 0x5B) && !is_pair_at(b, j, 0x5D),
    ensures
        opening_before(b, i) == Some(o + 2),
    decreases i - o,
{
    if i > o {
        assert forall|j: int| o < j <= i - 1 implies !#[trigger] is_pair_at(b, j, 0x5B)
            && !is_pair_at(b, j, 0x5D) by {
            assert(!is_pair_at(b, j, 0x5B) && !is_pair_at(b, j, 0x5D));
        }
        lemma_opening_at(b, o, i - 1);
    }
}

/// The scan up from `i` stops at the first `]]`, at `c`.
proof fn lemma_closing_at(b: Seq<u8>, i: int, c: int)
    requires
        0 <= i <= c,
        is_pair_at(b, c, 0x5D),
        forall|j: int| i <= j < c ==> !#[trigger] is_pair_at(b, j, 0x5D),
    ensures
        closing_from(b, i) == Some(c),
    decreases c - i,
{
    if i < c {
        lemma_closing_at(b, i + 1, c);
    }
}

/// Where the search for `x` stops before `end`, `x` stands.
proof fn lemma_first_byte_found(b: Seq<u8>, x: u8, i: int, end: int)
    ensures
        first_byte_from(b, x, i, end) < end ==> b[first_byte_from(b, x, i, end)] == x,
    decreases end - i,
{
    if i < end && b[i] != x {
        lemma_first_byte_found(b, x, i + 1, end);
    }
}

/// Inside a wikilink the cursor finds its target, wherever it stands: when
/// the nearest `[[` before the cursor (at `o`) has no `]]` between it and
/// the cursor, and a first `]]` follows it (at `c`), the text found starts
/// right after that `[[` and ends at the first `|` before the `]]`, or at
/// the `]]` when there is none; whether the cursor is before or after the
/// `|` makes no difference.
pub proof fn law_cursor_in_link(b: Seq<u8>, cursor: int, o: int, c: int)
    requires
        2 <= cursor <= b.len(),
        0 <= o < cursor,
        is_pair_at(b, o, 0x5B),
        forall|j: int|
            o < j < cursor ==> !#[trigger] is_pair_at(b, j, 0x5B) && !is_pair_at(b, j, 0x5D),
        o + 2 <= c,
        is_pair_at(b, c, 0x5D),
        forall|j: int| o + 2 <= j < c ==> !#[trigger] is_pair_at(b, j, 0x5D),
    ensures
        link_at_cursor(b, cursor) matches Some((s, e)) && s == o + 2 && o + 2 <= e <= c && (e == c
            || b[e] == 0x7C) && forall|j: int| o + 2 <= j < e ==> #[trigger] b[j] != 0x7C,
{
    lemma_opening_at(b, o, cursor - 1);
    lemma_closing_at(b, o + 2, c);
    lemma_first_byte_from(b, 0x7C, o + 2, c);
    lemma_first_byte_found(b, 0x7C, o + 2, c);
}

} // verus!

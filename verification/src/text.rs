//! A character-level model of the string operations the note formats rely on.
//!
//! Text is modelled as `Seq<char>` (the view of `str` and `String`).  Each
//! operation is given a spec function and an executable counterpart over
//! `&[char]` that is proved to compute it.
use vstd::prelude::*;

verus! {

/// The characters that carry the Unicode `White_Space` property, which is
/// what `char::is_whitespace` (and therefore `str::trim`) tests for.
pub open spec fn is_white_space(c: char) -> bool {
    let u = c as u32;
    ||| 0x09 <= u <= 0x0D
    ||| u == 0x20
    ||| u == 0x85
    ||| u == 0xA0
    ||| u == 0x1680
    ||| 0x2000 <= u <= 0x200A
    ||| u == 0x2028
    ||| u == 0x2029
    ||| u == 0x202F
    ||| u == 0x205F
    ||| u == 0x3000
}

/// A class of characters that a trimming operation removes.
#[derive(Clone, Copy)]
pub enum CharClass {
    WhiteSpace,
    Exactly(char),
    /// `/` or `\\`.
    PathSeparator,
}

pub open spec fn in_class(k: CharClass, c: char) -> bool {
    match k {
        CharClass::WhiteSpace => is_white_space(c),
        CharClass::Exactly(x) => c == x,
        CharClass::PathSeparator => c == '/' || c == '\\',
    }
}

/// The first position at or after `i` whose character is in `k`.
pub open spec fn find_class_from(s: Seq<char>, k: CharClass, i: int) -> Option<int>
    decreases s.len() - i,
{
    if i < 0 || i >= s.len() {
        None
    } else if in_class(k, s[i]) {
        Some(i)
    } else {
        find_class_from(s, k, i + 1)
    }
}

/// `s` without its longest prefix of characters in `k`.
pub open spec fn strip_start(s: Seq<char>, k: CharClass) -> Seq<char>
    decreases s.len(),
{
    if s.len() > 0 && in_class(k, s[0]) {
        strip_start(s.drop_first(), k)
    } else {
        s
    }
}

/// `s` without its longest suffix of characters in `k`.
pub open spec fn strip_end(s: Seq<char>, k: CharClass) -> Seq<char>
    decreases s.len(),
{
    if s.len() > 0 && in_class(k, s.last()) {
        strip_end(s.drop_last(), k)
    } else {
        s
    }
}

/// `str::trim_start`.
pub open spec fn trim_start(s: Seq<char>) -> Seq<char> {
    strip_start(s, CharClass::WhiteSpace)
}

/// `str::trim`.
pub open spec fn trim(s: Seq<char>) -> Seq<char> {
    strip_end(strip_start(s, CharClass::WhiteSpace), CharClass::WhiteSpace)
}

/// `str::trim_matches` with a single character.
pub open spec fn trim_char(s: Seq<char>, c: char) -> Seq<char> {
    strip_end(strip_start(s, CharClass::Exactly(c)), CharClass::Exactly(c))
}

pub open spec fn starts_with(s: Seq<char>, p: Seq<char>) -> bool {
    p.len() <= s.len() && s.take(p.len() as int) == p
}

pub open spec fn ends_with(s: Seq<char>, p: Seq<char>) -> bool {
    p.len() <= s.len() && s.skip(s.len() - p.len()) == p
}

pub open spec fn occurs_at(s: Seq<char>, p: Seq<char>, i: int) -> bool {
    0 <= i && i + p.len() <= s.len() && s.subrange(i, i + p.len()) == p
}

/// The first position at or after `i` where `p` occurs in `s`.
pub open spec fn find_from(s: Seq<char>, p: Seq<char>, i: int) -> Option<int>
    decreases s.len() + 1 - i,
{
    if i < 0 || i + p.len() > s.len() {
        None
    } else if occurs_at(s, p, i) {
        Some(i)
    } else {
        find_from(s, p, i + 1)
    }
}

/// `str::find` with a string pattern, counted in characters.
pub open spec fn find(s: Seq<char>, p: Seq<char>) -> Option<int> {
    find_from(s, p, 0)
}

pub open spec fn contains(s: Seq<char>, p: Seq<char>) -> bool {
    find(s, p) is Some
}

pub open spec fn opt_int(o: Option<usize>) -> Option<int> {
    match o {
        Some(i) => Some(i as int),
        None => None,
    }
}

/// A line as `str::lines` yields it: a `\r` right before the `\n` is dropped.
pub open spec fn strip_cr(l: Seq<char>) -> Seq<char> {
    if l.len() > 0 && l.last() == '\r' {
        l.drop_last()
    } else {
        l
    }
}

/// `str::lines`: the text split at `\n`, with no empty line after a final `\n`.
pub open spec fn lines(s: Seq<char>) -> Seq<Seq<char>>
    decreases s.len(),
{
    if s.len() == 0 {
        seq![]
    } else {
        match find(s, seq!['\n']) {
            Some(i) => if 0 <= i < s.len() {
                seq![strip_cr(s.take(i))] + lines(s.skip(i + 1))
            } else {
                seq![s]
            },
            None => seq![s],
        }
    }
}

/// `str::split` with a character: every piece between two occurrences.
pub open spec fn split_on(s: Seq<char>, c: char) -> Seq<Seq<char>>
    decreases s.len(),
{
    match find(s, seq![c]) {
        Some(i) => if 0 <= i < s.len() {
            seq![s.take(i)] + split_on(s.skip(i + 1), c)
        } else {
            seq![s]
        },
        None => seq![s],
    }
}

/// `str::to_lowercase`: Unicode lowercasing, which `std` defines by the
/// Unicode character database and a context rule for final sigma.
pub uninterp spec fn lowercase_text(s: Seq<char>) -> Seq<char>;

// ---------------------------------------------------------------------
// Facts about the model.
// ---------------------------------------------------------------------

pub proof fn lemma_find_from(s: Seq<char>, p: Seq<char>, i: int)
    requires
        0 <= i,
    ensures
        match find_from(s, p, i) {
            Some(j) => i <= j && j + p.len() <= s.len() && occurs_at(s, p, j) && forall|m: int|
                i <= m < j ==> !#[trigger] occurs_at(s, p, m),
            None => forall|m: int| i <= m ==> !#[trigger] occurs_at(s, p, m),
        },
    decreases s.len() + 1 - i,
{
    if i + p.len() > s.len() {
    } else if occurs_at(s, p, i) {
    } else {
        lemma_find_from(s, p, i + 1);
    }
}

// ---------------------------------------------------------------------
// Executable operations.
// ---------------------------------------------------------------------

pub fn is_white_space_char(c: char) -> (b: bool)
    ensures
        b == is_white_space(c),
{
    let u = c as u32;
    (0x09 <= u && u <= 0x0D) || u == 0x20 || u == 0x85 || u == 0xA0 || u == 0x1680 || (0x2000
        <= u && u <= 0x200A) || u == 0x2028 || u == 0x2029 || u == 0x202F || u == 0x205F || u
        == 0x3000
}

pub fn in_class_char(k: CharClass, c: char) -> (b: bool)
    ensures
        b == in_class(k, c),
{
    match k {
        CharClass::WhiteSpace => is_white_space_char(c),
        CharClass::Exactly(x) => c == x,
        CharClass::PathSeparator => c == '/' || c == '\\',
    }
}

pub proof fn lemma_find_class_from(s: Seq<char>, k: CharClass, i: int)
    requires
        0 <= i,
    ensures
        match find_class_from(s, k, i) {
            Some(j) => i <= j < s.len() && in_class(k, s[j]) && forall|m: int|
                i <= m < j ==> !in_class(k, #[trigger] s[m]),
            None => forall|m: int| i <= m < s.len() ==> !in_class(k, #[trigger] s[m]),
        },
    decreases s.len() - i,
{
    if i < s.len() && !in_class(k, s[i]) {
        lemma_find_class_from(s, k, i + 1);
    }
}

/// The first position at or after `from` whose character is in `k`.
pub fn find_class_at(s: &[char], k: CharClass, from: usize) -> (r: Option<usize>)
    ensures
        opt_int(r) == find_class_from(s@, k, from as int),
{
    let mut i = from;
    while i < s.len()
        invariant
            from <= i,
            find_class_from(s@, k, from as int) == find_class_from(s@, k, i as int),
        decreases s.len() - i,
    {
        if in_class_char(k, s[i]) {
            return Some(i);
        }
        i += 1;
    }
    None
}

/// The characters of a string slice, in order.
pub fn chars_of(s: &str) -> (v: Vec<char>)
    ensures
        v@ == s@,
{
    let mut v: Vec<char> = Vec::new();
    for c in it: s.chars()
        invariant
            v@ == it.seq().take(it.index() as int),
    {
        v.push(c);
    }
    v
}

/// How many characters `strip_start` removes.
pub fn strip_start_len(s: &[char], k: CharClass) -> (n: usize)
    ensures
        n <= s@.len(),
        s@.skip(n as int) == strip_start(s@, k),
{
    let mut i: usize = 0;
    assert(s@.skip(0) == s@);
    while i < s.len() && in_class_char(k, s[i])
        invariant
            i <= s@.len(),
            strip_start(s@.skip(i as int), k) == strip_start(s@, k),
        decreases s.len() - i,
    {
        assert(s@.skip(i as int).drop_first() == s@.skip(i + 1));
        i += 1;
    }
    i
}

/// How many characters remain once `strip_end` is applied.
pub fn strip_end_len(s: &[char], k: CharClass) -> (n: usize)
    ensures
        n <= s@.len(),
        s@.take(n as int) == strip_end(s@, k),
{
    let mut i: usize = s.len();
    assert(s@.take(i as int) == s@);
    while i > 0 && in_class_char(k, s[i - 1])
        invariant
            i <= s@.len(),
            strip_end(s@.take(i as int), k) == strip_end(s@, k),
        decreases i,
    {
        assert(s@.take(i as int).drop_last() == s@.take(i - 1));
        i -= 1;
    }
    i
}

/// Whether `p` occurs in `s` at position `i`.
pub fn matches_at(s: &[char], p: &[char], i: usize) -> (b: bool)
    requires
        i <= s@.len(),
    ensures
        b == occurs_at(s@, p@, i as int),
{
    let n = s.len();
    if p.len() > n - i {
        return false;
    }
    let mut j: usize = 0;
    while j < p.len()
        invariant
            n == s@.len(),
            j <= p@.len(),
            i + p@.len() <= s@.len(),
            forall|m: int| 0 <= m < j ==> s@[i + m] == p@[m],
        decreases p.len() - j,
    {
        assert(i + j < s@.len());
        if s[i + j] != p[j] {
            assert(s@.subrange(i as int, i + p@.len())[j as int] != p@[j as int]);
            return false;
        }
        j += 1;
    }
    assert(s@.subrange(i as int, i + p@.len()) =~= p@);
    true
}

/// The first occurrence of `p` in `s` at or after `from`.
pub fn find_at(s: &[char], p: &[char], from: usize) -> (r: Option<usize>)
    ensures
        opt_int(r) == find_from(s@, p@, from as int),
{
    if from > s.len() {
        return None;
    }
    let mut i = from;
    while p.len() <= s.len() - i
        invariant
            from <= i <= s@.len(),
            find_from(s@, p@, from as int) == find_from(s@, p@, i as int),
        decreases s.len() - i,
    {
        if matches_at(s, p, i) {
            return Some(i);
        }
        proof {
            if p@.len() == 0 {
                assert(s@.subrange(i as int, i as int) =~= p@);
            }
        }
        i += 1;
    }
    None
}

/// The first occurrence of the character `c` in `s` at or after `from`.
pub fn find_char_at(s: &[char], c: char, from: usize) -> (r: Option<usize>)
    ensures
        opt_int(r) == find_from(s@, seq![c], from as int),
{
    let p = [c];
    assert(p@ =~= seq![c]);
    find_at(s, &p, from)
}

pub fn starts_with_chars(s: &[char], p: &[char]) -> (b: bool)
    ensures
        b == starts_with(s@, p@),
{
    let r = matches_at(s, p, 0);
    proof {
        if p@.len() <= s@.len() {
            assert(s@.subrange(0, p@.len() as int) == s@.take(p@.len() as int));
        }
    }
    r
}

pub fn ends_with_chars(s: &[char], p: &[char]) -> (b: bool)
    ensures
        b == ends_with(s@, p@),
{
    if p.len() > s.len() {
        return false;
    }
    let r = matches_at(s, p, s.len() - p.len());
    assert(s@.subrange(s@.len() - p@.len(), s@.len() as int) == s@.skip(s@.len() - p@.len()));
    r
}

/// `&s[from..]`.
pub fn slice_from(s: &[char], from: usize) -> (r: &[char])
    requires
        from <= s@.len(),
    ensures
        r@ == s@.skip(from as int),
{
    let r = &s[from..s.len()];
    assert(r@ =~= s@.skip(from as int));
    r
}

/// `&s[..to]`.
pub fn slice_to(s: &[char], to: usize) -> (r: &[char])
    requires
        to <= s@.len(),
    ensures
        r@ == s@.take(to as int),
{
    let r = &s[0..to];
    assert(r@ =~= s@.take(to as int));
    r
}

/// `s` with white space removed at the start (`str::trim_start`).
pub fn trim_start_slice(s: &[char]) -> (r: &[char])
    ensures
        r@ == trim_start(s@),
{
    let k = strip_start_len(s, CharClass::WhiteSpace);
    slice_from(s, k)
}

/// `s` with white space removed at both ends (`str::trim`).
pub fn trim_slice(s: &[char]) -> (r: &[char])
    ensures
        r@ == trim(s@),
{
    let t = trim_start_slice(s);
    let k = strip_end_len(t, CharClass::WhiteSpace);
    slice_to(t, k)
}

/// `s` with every `c` removed at both ends (`str::trim_matches`).
pub fn trim_char_slice(s: &[char], c: char) -> (r: &[char])
    ensures
        r@ == trim_char(s@, c),
{
    let a = strip_start_len(s, CharClass::Exactly(c));
    let t = slice_from(s, a);
    let b = strip_end_len(t, CharClass::Exactly(c));
    slice_to(t, b)
}

/// The lines of `s`, as `str::lines` yields them.
pub fn lines_of(s: &[char]) -> (r: Vec<Vec<char>>)
    ensures
        r.deep_view() == lines(s@),
{
    let mut out: Vec<Vec<char>> = Vec::new();
    let mut pos: usize = 0;
    assert(s@.skip(0) == s@);
    while pos < s.len()
        invariant
            pos <= s@.len(),
            out.deep_view() + lines(s@.skip(pos as int)) == lines(s@),
        decreases s.len() - pos,
    {
        let rest = slice_from(s, pos);
        let ghost old_dv = out.deep_view();
        match find_char_at(rest, '\n', 0) {
            Some(i) => {
                proof {
                    lemma_find_from(rest@, seq!['\n'], 0);
                }
                let line = if i > 0 && rest[i - 1] == '\r' {
                    copy_range(rest, 0, i - 1)
                } else {
                    copy_range(rest, 0, i)
                };
                assert(line@ == strip_cr(rest@.take(i as int)));
                assert(line.deep_view() =~= line@);
                out.push(line);
                assert(out.deep_view() =~= old_dv.push(line@));
                assert(rest@.skip(i + 1) == s@.skip(pos + i + 1));
                assert(lines(rest@) == seq![strip_cr(rest@.take(i as int))] + lines(rest@.skip(i + 1)));
                assert(old_dv + lines(rest@) =~= out.deep_view() + lines(rest@.skip(i + 1)));
                pos = pos + i + 1;
            },
            None => {
                let line = copy_range(rest, 0, rest.len());
                assert(line@ == rest@);
                assert(line.deep_view() =~= line@);
                out.push(line);
                assert(out.deep_view() =~= old_dv.push(line@));
                assert(lines(rest@) == seq![rest@]);
                assert(s@.skip(s@.len() as int) =~= Seq::<char>::empty());
                assert(lines(Seq::<char>::empty()) == Seq::<Seq<char>>::empty());
                assert(old_dv + lines(rest@) =~= out.deep_view() + lines(s@.skip(s@.len() as int)));
                pos = s.len();
            },
        }
    }
    assert(s@.skip(s@.len() as int) =~= Seq::<char>::empty());
    assert(out.deep_view() + lines(Seq::<char>::empty()) =~= out.deep_view());
    out
}

/// Builds a `String` from its characters (`String::from_iter`).
#[verifier::external_body]
pub(crate) fn string_from_chars(v: Vec<char>) -> (s: String)
    ensures
        s@ == v@,
{
    String::from_iter(v)
}

/// Lowercases a string slice with `str::to_lowercase`.
#[verifier::external_body]
pub(crate) fn to_lowercase(s: &str) -> (r: String)
    ensures
        r@ == lowercase_text(s@),
{
    s.to_lowercase()
}

/// Copies `s[lo..hi]` into a vector.
pub fn copy_range(s: &[char], lo: usize, hi: usize) -> (v: Vec<char>)
    requires
        lo <= hi <= s@.len(),
    ensures
        v@ == s@.subrange(lo as int, hi as int),
{
    let mut v: Vec<char> = Vec::new();
    let mut i = lo;
    while i < hi
        invariant
            lo <= i <= hi <= s@.len(),
            v@ == s@.subrange(lo as int, i as int),
        decreases hi - i,
    {
        v.push(s[i]);
        assert(s@.subrange(lo as int, i + 1) == s@.subrange(lo as int, i as int).push(s@[i as int]));
        i += 1;
    }
    v
}

/// Appends `src` to `dst`.
pub fn push_all(dst: &mut Vec<char>, src: &[char])
    ensures
        final(dst)@ == old(dst)@ + src@,
{
    let mut i: usize = 0;
    while i < src.len()
        invariant
            i <= src@.len(),
            dst@ == old(dst)@ + src@.take(i as int),
        decreases src.len() - i,
    {
        dst.push(src[i]);
        assert(src@.take(i + 1) == src@.take(i as int).push(src@[i as int]));
        i += 1;
    }
    assert(src@.take(src@.len() as int) == src@);
}

/// Lowercases the characters of `s`.
pub fn lowercase_chars(s: &[char]) -> (r: String)
    ensures
        r@ == lowercase_text(s@),
{
    let v = copy_range(s, 0, s.len());
    assert(s@.subrange(0, s@.len() as int) == s@);
    let t = string_from_chars(v);
    to_lowercase(t.as_str())
}

/// Stripping a prefix leaves a suffix of the text.
pub proof fn lemma_strip_start_suffix(s: Seq<char>, k: CharClass)
    ensures
        ends_with(s, strip_start(s, k)),
    decreases s.len(),
{
    if s.len() > 0 && in_class(k, s[0]) {
        lemma_strip_start_suffix(s.drop_first(), k);
        let t = strip_start(s.drop_first(), k);
        assert(s.skip(s.len() - t.len()) =~= s.drop_first().skip(s.drop_first().len() - t.len()));
    } else {
        assert(s.skip(0) =~= s);
    }
}

/// A suffix of a suffix is a suffix.
pub proof fn lemma_suffix_trans(a: Seq<char>, b: Seq<char>, c: Seq<char>)
    requires
        ends_with(a, b),
        ends_with(b, c),
    ensures
        ends_with(a, c),
{
    assert(a.skip(a.len() - c.len()) =~= b.skip(b.len() - c.len()));
}

/// What follows position `i` is a suffix.
pub proof fn lemma_skip_suffix(s: Seq<char>, i: int)
    requires
        0 <= i <= s.len(),
    ensures
        ends_with(s, s.skip(i)),
{
    assert(s.skip(s.len() - s.skip(i).len()) =~= s.skip(i));
}

/// What `strip_start` leaves is empty or starts outside the class.
pub proof fn lemma_strip_start_first(s: Seq<char>, k: CharClass)
    ensures
        strip_start(s, k).len() == 0 || !in_class(k, strip_start(s, k)[0]),
    decreases s.len(),
{
    if s.len() > 0 && in_class(k, s[0]) {
        lemma_strip_start_first(s.drop_first(), k);
    }
}

/// What `strip_end` leaves is a prefix: empty, or ending outside the class.
pub proof fn lemma_strip_end_prefix(s: Seq<char>, k: CharClass)
    ensures
        strip_end(s, k).len() <= s.len(),
        strip_end(s, k) == s.take(strip_end(s, k).len() as int),
        strip_end(s, k).len() == 0 || !in_class(k, strip_end(s, k).last()),
    decreases s.len(),
{
    if s.len() > 0 && in_class(k, s.last()) {
        lemma_strip_end_prefix(s.drop_last(), k);
        let t = strip_end(s.drop_last(), k);
        assert(s.drop_last().take(t.len() as int) == s.take(t.len() as int));
    } else {
        assert(s.take(s.len() as int) == s);
    }
}

/// Trimming twice is trimming once.
pub proof fn lemma_trim_idempotent(s: Seq<char>)
    ensures
        trim(trim(s)) == trim(s),
{
    let k = CharClass::WhiteSpace;
    let u = strip_start(s, k);
    let t = strip_end(u, k);
    lemma_strip_start_first(s, k);
    lemma_strip_end_prefix(u, k);
    if t.len() > 0 {
        assert(t[0] == u[0]);
        assert(strip_start(t, k) == t);
        lemma_strip_end_prefix(t, k);
        assert(strip_end(t, k) == t);
    } else {
        assert(strip_start(t, k) == t);
        assert(strip_end(t, k) == t);
    }
}

/// A first occurrence is what `find` finds.
pub proof fn lemma_find_is(s: Seq<char>, p: Seq<char>, k: int)
    requires
        occurs_at(s, p, k),
        forall|m: int| 0 <= m < k ==> !#[trigger] occurs_at(s, p, m),
    ensures
        find(s, p) == Some(k),
{
    lemma_find_from(s, p, 0);
}

} // verus!

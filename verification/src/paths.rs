//! Vault paths: components, names, parents, titles, and the checks that
//! keep a path inside the vault.
use vstd::prelude::*;
use crate::text::{
    chars_of, contains, copy_range, occurs_at, ends_with, ends_with_chars, find, find_at, find_class_at,
    find_class_from, lemma_find_class_from, lemma_find_from, push_all, slice_from, slice_to,
    string_from_chars, CharClass,
};

verus! {

/// The piece as a one-element list, unless it is empty.
pub open spec fn nonempty_piece(x: Seq<char>) -> Seq<Seq<char>> {
    if x.len() > 0 {
        seq![x]
    } else {
        seq![]
    }
}

/// The components of a path: the non-empty pieces between `/` and `\`.
pub open spec fn components(s: Seq<char>) -> Seq<Seq<char>>
    decreases s.len(),
{
    match find_class_from(s, CharClass::PathSeparator, 0) {
        Some(i) => if 0 <= i < s.len() {
            nonempty_piece(s.take(i)) + components(s.skip(i + 1))
        } else {
            nonempty_piece(s)
        },
        None => nonempty_piece(s),
    }
}

/// The pieces of a path between `/` and `\`, empty ones included.
pub open spec fn segments(s: Seq<char>) -> Seq<Seq<char>>
    decreases s.len(),
{
    match find_class_from(s, CharClass::PathSeparator, 0) {
        Some(i) => if 0 <= i < s.len() {
            seq![s.take(i)] + segments(s.skip(i + 1))
        } else {
            seq![s]
        },
        None => seq![s],
    }
}

/// Split a path on both `/` and `\` for cross-platform compatibility,
/// leaving out empty components.
pub fn split_path(path: &str) -> (r: Vec<&str>)
    ensures
        r.deep_view() == components(path@),
{
    let cs = chars_of(path);
    let s = cs.as_slice();
    let n = s.len();
    let mut out: Vec<&str> = Vec::new();
    let mut pos: usize = 0;
    assert(s@.skip(0) == s@);
    assert(out.deep_view() =~= Seq::<Seq<char>>::empty());
    loop
        invariant
            n == s@.len(),
            s@ == path@,
            pos <= n,
            out.deep_view() + components(s@.skip(pos as int)) == components(s@),
        decreases n - pos,
    {
        let rest = slice_from(s, pos);
        let ghost before = out.deep_view();
        match find_class_at(rest, CharClass::PathSeparator, 0) {
            Some(i) => {
                proof {
                    lemma_find_class_from(rest@, CharClass::PathSeparator, 0);
                }
                if i > 0 {
                    let piece = path.substring_char(pos, pos + i);
                    assert(piece@ =~= rest@.take(i as int));
                    out.push(piece);
                    assert(out.deep_view() =~= before.push(piece@));
                } else {
                    assert(rest@.take(0) =~= Seq::<char>::empty());
                }
                assert(rest@.skip(i + 1) == s@.skip(pos + i + 1));
                assert(before + components(rest@) =~= out.deep_view() + components(
                    rest@.skip(i + 1),
                ));
                pos = pos + i + 1;
            },
            None => {
                if pos < n {
                    let piece = path.substring_char(pos, n);
                    assert(piece@ =~= rest@);
                    out.push(piece);
                    assert(out.deep_view() =~= before.push(piece@));
                }
                assert(out.deep_view() =~= before + components(rest@));
                return out;
            },
        }
    }
}

/// The name of a path: its last component, or `(unnamed)` if it has none.
pub open spec fn file_name_of(path: Seq<char>) -> Seq<char> {
    let c = components(path);
    if c.len() > 0 {
        c.last()
    } else {
        "(unnamed)"@
    }
}

/// Extract the file name from a path (its last component).
pub fn file_name_from_path(path: &str) -> (r: &str)
    ensures
        r@ == file_name_of(path@),
{
    let parts = split_path(path);
    if parts.len() > 0 {
        let last = parts[parts.len() - 1];
        assert(parts.deep_view()[parts@.len() - 1] == last@);
        last
    } else {
        "(unnamed)"
    }
}

/// `s` with every `\` replaced by `/`.
pub open spec fn normalize_separators(s: Seq<char>) -> Seq<char> {
    s.map_values(|c: char| if c == '\\' { '/' } else { c })
}

/// The last position of a character of class `k`.
pub open spec fn rfind_class(s: Seq<char>, k: CharClass) -> Option<int>
    decreases s.len(),
{
    if s.len() == 0 {
        None
    } else if crate::text::in_class(k, s.last()) {
        Some(s.len() - 1)
    } else {
        rfind_class(s.drop_last(), k)
    }
}

pub proof fn lemma_rfind_class(s: Seq<char>, k: CharClass)
    ensures
        rfind_class(s, k) matches Some(i) ==> 0 <= i < s.len() && crate::text::in_class(k, s[i]),
    decreases s.len(),
{
    if s.len() > 0 && !crate::text::in_class(k, s.last()) {
        lemma_rfind_class(s.drop_last(), k);
    }
}

fn rfind_class_exec(s: &[char], k: CharClass) -> (r: Option<usize>)
    ensures
        crate::text::opt_int(r) == rfind_class(s@, k),
{
    let mut i = s.len();
    assert(s@.take(i as int) == s@);
    while i > 0
        invariant
            i <= s@.len(),
            rfind_class(s@, k) == rfind_class(s@.take(i as int), k),
        decreases i,
    {
        assert(s@.take(i as int).drop_last() == s@.take(i - 1));
        if crate::text::in_class_char(k, s[i - 1]) {
            return Some(i - 1);
        }
        i -= 1;
    }
    None
}

/// The parent folder of a path (separators normalized to `/`): what
/// precedes the last `/`, or nothing for a root-level item.
pub open spec fn parent_of(path: Seq<char>) -> Seq<char> {
    let n = normalize_separators(path);
    match rfind_class(n, CharClass::Exactly('/')) {
        Some(i) => n.take(i),
        None => seq![],
    }
}

/// Extract the parent folder from a path. Returns an empty string for
/// root-level items.
pub fn extract_parent(path: &str) -> (r: String)
    ensures
        r@ == parent_of(path@),
{
    let cs = chars_of(path);
    let mut normalised: Vec<char> = Vec::new();
    let mut i: usize = 0;
    while i < cs.len()
        invariant
            i <= cs@.len(),
            normalised@ == normalize_separators(cs@.take(i as int)),
        decreases cs.len() - i,
    {
        let c = cs[i];
        normalised.push(if c == '\\' { '/' } else { c });
        assert(normalize_separators(cs@.take(i + 1)) =~= normalize_separators(cs@.take(i as int)).push(
            if c == '\\' { '/' } else { c },
        ));
        i += 1;
    }
    assert(cs@.take(cs@.len() as int) == cs@);
    match rfind_class_exec(normalised.as_slice(), CharClass::Exactly('/')) {
        Some(idx) => {
            proof {
                lemma_rfind_class(normalised@, CharClass::Exactly('/'));
            }
            string_from_chars(copy_range(normalised.as_slice(), 0, idx))
        },
        None => {
            let v: Vec<char> = Vec::new();
            assert(v@ =~= Seq::<char>::empty());
            string_from_chars(v)
        },
    }
}

/// The display title of a path: its part after the last `/` or `\`, with a
/// trailing `.md` removed.
pub open spec fn title_of(path: Seq<char>) -> Seq<char> {
    let name = match rfind_class(path, CharClass::PathSeparator) {
        Some(i) => path.skip(i + 1),
        None => path,
    };
    if ends_with(name, ".md"@) {
        name.take(name.len() - 3)
    } else {
        name
    }
}

/// Positions of the display title within the path.
fn title_range(cs: &[char]) -> (r: (usize, usize))
    ensures
        r.0 <= r.1 <= cs@.len(),
        cs@.subrange(r.0 as int, r.1 as int) == title_of(cs@),
{
    let n = cs.len();
    let start = match rfind_class_exec(cs, CharClass::PathSeparator) {
        Some(i) => {
            proof {
                lemma_rfind_class(cs@, CharClass::PathSeparator);
            }
            i + 1
        },
        None => 0,
    };
    let name = slice_from(cs, start);
    assert(start == 0 ==> name@ == cs@);
    let md = chars_of(".md");
    proof {
        reveal_strlit(".md");
    }
    if ends_with_chars(name, md.as_slice()) {
        let end = cs.len() - 3;
        assert(cs@.subrange(start as int, end as int) =~= name@.take(name@.len() - 3));
        (start, end)
    } else {
        assert(cs@.subrange(start as int, cs@.len() as int) =~= name@);
        (start, cs.len())
    }
}

/// Extracts the display title from a vault-relative path (strips folders
/// and the `.md` extension).
pub fn note_title(path: &str) -> (r: &str)
    ensures
        r@ == title_of(path@),
{
    let cs = chars_of(path);
    let (a, b) = title_range(cs.as_slice());
    path.substring_char(a, b)
}

/// Builds the absolute filesystem path from vault root + relative path,
/// joined with `\` when the root uses it and `/` otherwise.
pub open spec fn joined_path(vault_root: Seq<char>, rel: Seq<char>) -> Seq<char> {
    vault_root + (if contains(vault_root, seq!['\\']) {
        seq!['\\']
    } else {
        seq!['/']
    }) + rel
}

/// Builds the absolute filesystem path from vault root + relative path.
pub fn abs_path(vault_root: &str, rel: &str) -> (r: String)
    ensures
        r@ == joined_path(vault_root@, rel@),
{
    let mut v = chars_of(vault_root);
    let r = chars_of(rel);
    let has_backslash = find_class_at(v.as_slice(), CharClass::Exactly('\\'), 0).is_some();
    proof {
        lemma_find_class_from(v@, CharClass::Exactly('\\'), 0);
        lemma_find_from(v@, seq!['\\'], 0);
        if has_backslash {
            let j = find_class_from(v@, CharClass::Exactly('\\'), 0)->0;
            assert(v@.subrange(j, j + 1) =~= seq!['\\']);
            assert(occurs_at(v@, seq!['\\'], j));
        } else {
            if find(v@, seq!['\\']) is Some {
                let j = find(v@, seq!['\\'])->0;
                assert(v@.subrange(j, j + 1)[0] == v@[j]);
            }
        }
        assert(has_backslash == contains(vault_root@, seq!['\\']));
    }
    let sep = if has_backslash {
        '\\'
    } else {
        '/'
    };
    v.push(sep);
    push_all(&mut v, r.as_slice());
    assert(v@ =~= joined_path(vault_root@, rel@));
    string_from_chars(v)
}

/// What `validate_path_helper` answers: a path with a NUL character, or with
/// a `..` segment between separators, is refused.
pub enum PathCheck {
    Accepted,
    NullByte,
    Traversal,
}

pub open spec fn path_check(path: Seq<char>) -> PathCheck {
    if path.contains('\0') {
        PathCheck::NullByte
    } else if segments(path).contains(".."@) {
        PathCheck::Traversal
    } else {
        PathCheck::Accepted
    }
}

/// `path contains null byte`
pub open spec fn null_byte_message() -> Seq<char> {
    "path contains null byte"@
}

/// `path traversal not allowed`
pub open spec fn traversal_message() -> Seq<char> {
    "path traversal not allowed"@
}

fn has_parent_segment(s: &[char]) -> (b: bool)
    ensures
        b == segments(s@).contains(".."@),
{
    let n = s.len();
    let dots = chars_of("..");
    proof {
        reveal_strlit("..");
    }
    let mut pos: usize = 0;
    assert(s@.skip(0) == s@);
    loop
        invariant
            n == s@.len(),
            pos <= n,
            dots@ == ".."@,
            dots@ == seq!['.', '.'],
            segments(s@).contains(".."@) == segments(s@.skip(pos as int)).contains(".."@),
        decreases n - pos,
    {
        let rest = slice_from(s, pos);
        match find_class_at(rest, CharClass::PathSeparator, 0) {
            Some(i) => {
                proof {
                    lemma_find_class_from(rest@, CharClass::PathSeparator, 0);
                }
                let seg = slice_to(rest, i);
                let is_dots = i == 2 && seg[0] == '.' && seg[1] == '.';
                assert(is_dots == (seg@ == dots@)) by {
                    if seg@ == dots@ {
                        assert(seg@[0] == '.' && seg@[1] == '.');
                    }
                    if is_dots {
                        assert(seg@ =~= dots@);
                    }
                };
                let ghost sg = segments(rest@);
                assert(sg == seq![rest@.take(i as int)] + segments(rest@.skip(i + 1)));
                assert(sg.contains(".."@) == (rest@.take(i as int) == ".."@ || segments(
                    rest@.skip(i + 1),
                ).contains(".."@))) by {
                    if sg.contains(".."@) {
                        let k = choose|k: int| 0 <= k < sg.len() && #[trigger] sg[k] == ".."@;
                        if k > 0 {
                            assert(segments(rest@.skip(i + 1))[k - 1] == ".."@);
                        }
                    }
                    let tail = segments(rest@.skip(i + 1));
                    if tail.contains(".."@) {
                        let k = choose|k: int| 0 <= k < tail.len() && #[trigger] tail[k] == ".."@;
                        assert(sg[k + 1] == ".."@);
                    }
                    if rest@.take(i as int) == ".."@ {
                        assert(sg[0] == ".."@);
                    }
                };
                if is_dots {
                    return true;
                }
                assert(rest@.skip(i + 1) == s@.skip(pos + i + 1));
                pos = pos + i + 1;
            },
            None => {
                let is_dots = rest.len() == 2 && rest[0] == '.' && rest[1] == '.';
                assert(segments(rest@) == seq![rest@]);
                assert(is_dots == (rest@ == dots@)) by {
                    if rest@ == dots@ {
                        assert(rest@[0] == '.' && rest@[1] == '.');
                    }
                    if is_dots {
                        assert(rest@ =~= dots@);
                    }
                };
                assert(segments(rest@).contains(".."@) == (rest@ == ".."@)) by {
                    if rest@ == ".."@ {
                        assert(segments(rest@)[0] == ".."@);
                    }
                };
                return is_dots;
            },
        }
    }
}

/// Rejects a path that holds a NUL character or that climbs out of its
/// folder through a `..` segment (either separator counts).
pub fn validate_path_helper(path: &str) -> (r: Result<(), String>)
    ensures
        match path_check(path@) {
            PathCheck::Accepted => r is Ok,
            PathCheck::NullByte => r matches Err(m) && m@ == null_byte_message(),
            PathCheck::Traversal => r matches Err(m) && m@ == traversal_message(),
        },
{
    let cs = chars_of(path);
    match find_class_at(cs.as_slice(), CharClass::Exactly('\0'), 0) {
        Some(i) => {
            proof {
                lemma_find_class_from(cs@, CharClass::Exactly('\0'), 0);
                assert(cs@[i as int] == '\0');
            }
            return Err(string_from_chars(chars_of("path contains null byte")));
        },
        None => {
            proof {
                lemma_find_class_from(cs@, CharClass::Exactly('\0'), 0);
                assert(!path@.contains('\0'));
            }
        },
    }
    if has_parent_segment(cs.as_slice()) {
        return Err(string_from_chars(chars_of("path traversal not allowed")));
    }
    Ok(())
}

} // verus!

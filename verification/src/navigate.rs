//! Decisions of wikilink navigation: whether a target opens outside the
//! app, at which path, and the vault-relative path of a resolved note.
use vstd::prelude::*;
use crate::text::{
    chars_of, contains, find_char_at, lemma_find_from, starts_with, starts_with_chars,
    string_from_chars, strip_start, strip_start_len, slice_from, slice_to, CharClass,
};
use crate::wikilink::{before_hash, is_external_file, is_external_target};

verus! {

/// What following a wikilink does.
#[derive(Debug, Clone, PartialEq, Eq)]
pub enum WikilinkRoute {
    /// Open this absolute path in the default application of the system.
    OpenExternal { path: String },
    /// Resolve the target to a note of the vault and open it in a tab.
    Resolve,
}

/// The separator a vault root uses: `\` when it holds one, else `/`.
pub open spec fn separator_of(vault: Seq<char>) -> char {
    if contains(vault, seq!['\\']) {
        '\\'
    } else {
        '/'
    }
}

/// Where an external target lives: the target without its heading
/// fragment, inside the vault with its `/` written as the vault's
/// separator; as it is when no vault is open.
pub open spec fn external_path(target: Seq<char>, vault: Seq<char>) -> Seq<char> {
    let file_part = before_hash(target);
    if vault.len() == 0 {
        file_part
    } else {
        let sep = separator_of(vault);
        vault.push(sep) + file_part.map_values(|c: char| if c == '/' { sep } else { c })
    }
}

/// How a wikilink target is followed.
pub open spec fn route_of(target: Seq<char>, vault: Seq<char>) -> Option<Seq<char>> {
    if is_external_target(target) {
        Some(external_path(target, vault))
    } else {
        None
    }
}

/// Decide how to follow a wikilink target: files such as `.html`, media or
/// office documents open in the default application, at their path inside
/// the vault; anything else is resolved as a note.
pub fn route_wikilink(target: &str, vault_path: &str) -> (r: WikilinkRoute)
    ensures
        match r {
            WikilinkRoute::OpenExternal { path } => route_of(target@, vault_path@) == Some(path@),
            WikilinkRoute::Resolve => route_of(target@, vault_path@) is None,
        },
{
    if !is_external_file(target) {
        return WikilinkRoute::Resolve;
    }
    let t = chars_of(target);
    let file_part = match find_char_at(t.as_slice(), '#', 0) {
        Some(i) => {
            proof {
                lemma_find_from(t@, seq!['#'], 0);
            }
            slice_to(t.as_slice(), i)
        },
        None => {
            proof {
                lemma_find_from(t@, seq!['#'], 0);
            }
            t.as_slice()
        },
    };
    assert(file_part@ == before_hash(target@));
    let mut v = chars_of(vault_path);
    if v.len() == 0 {
        return WikilinkRoute::OpenExternal { path: string_from_chars(crate::text::copy_range(file_part, 0, file_part.len())) };
    }
    let has_backslash = find_char_at(v.as_slice(), '\\', 0).is_some();
    proof {
        lemma_find_from(v@, seq!['\\'], 0);
    }
    let sep = if has_backslash {
        '\\'
    } else {
        '/'
    };
    assert(sep == separator_of(vault_path@));
    let ghost base = v@.push(sep);
    v.push(sep);
    let mut i: usize = 0;
    while i < file_part.len()
        invariant
            i <= file_part@.len(),
            v@ == base + file_part@.take(i as int).map_values(
                |c: char| if c == '/' { sep } else { c },
            ),
        decreases file_part.len() - i,
    {
        let c = file_part[i];
        v.push(if c == '/' { sep } else { c });
        assert(file_part@.take(i + 1) == file_part@.take(i as int).push(c));
        assert(v@ =~= base + file_part@.take(i + 1).map_values(
            |c: char| if c == '/' { sep } else { c },
        ));
        i += 1;
    }
    assert(file_part@.take(file_part@.len() as int) == file_part@);
    assert(vault_path@.len() > 0);
    WikilinkRoute::OpenExternal { path: string_from_chars(v) }
}

/// The vault-relative path of a resolved note: what follows the vault root,
/// without leading separators, when the path lies under the (non-empty)
/// root; the path itself otherwise.
pub open spec fn relative_to_vault(abs: Seq<char>, vault: Seq<char>) -> Seq<char> {
    if vault.len() > 0 && starts_with(abs, vault) {
        strip_start(abs.skip(vault.len() as int), CharClass::PathSeparator)
    } else {
        abs
    }
}

/// The path of a resolved note relative to the vault root, for its tab.
pub fn vault_relative_path(abs_path: &str, vault_path: &str) -> (r: String)
    ensures
        r@ == relative_to_vault(abs_path@, vault_path@),
{
    let a = chars_of(abs_path);
    let v = chars_of(vault_path);
    if v.len() > 0 && starts_with_chars(a.as_slice(), v.as_slice()) {
        let rest = slice_from(a.as_slice(), v.len());
        let k = strip_start_len(rest, CharClass::PathSeparator);
        let out = slice_from(rest, k);
        string_from_chars(crate::text::copy_range(out, 0, out.len()))
    } else {
        string_from_chars(a)
    }
}

} // verus!

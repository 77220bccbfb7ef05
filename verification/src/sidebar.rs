//! Decisions of the vault sidebar: which files open as text, where a
//! clicked file lives, how names are shown and which paths are hidden.
use vstd::prelude::*;
use crate::tabs::{position_of_path, TabManager, TabView};
use crate::wikilink::eq_chars;
use crate::paths::{abs_path, components, file_name_from_path, file_name_of, joined_path, split_path};
use crate::text::{
    chars_of, contains, ends_with, ends_with_chars, find_char_at, lemma_find_from, lowercase_text,
    push_all, starts_with, string_from_chars, to_lowercase, find_from, starts_with_chars, slice_from,
};

verus! {

/// File extensions that can be opened as text in the editor.
pub const TEXT_EXTENSIONS: [&'static str; 39] = [
    ".md", ".txt", ".rs", ".py", ".js", ".ts", ".jsx", ".tsx", ".html", ".css", ".json", ".toml",
    ".yaml", ".yml", ".xml", ".sh", ".bash", ".zsh", ".fish", ".ps1", ".bat", ".cmd", ".c", ".h",
    ".cpp", ".hpp", ".java", ".go", ".rb", ".php", ".sql", ".lua", ".zig", ".nix", ".env",
    ".gitignore", ".dockerignore", ".editorconfig", ".csv",
];

/// Further text extensions (configuration and logs).
pub const MORE_TEXT_EXTENSIONS: [&'static str; 4] = [".ini", ".cfg", ".conf", ".log"];

/// All the extensions of text files.
pub open spec fn text_extensions() -> Seq<Seq<char>> {
    TEXT_EXTENSIONS@.map_values(|e: &str| e@) + MORE_TEXT_EXTENSIONS@.map_values(|e: &str| e@)
}

/// A file opens as text when its lowercased path ends with one of the text
/// extensions.
pub open spec fn is_text_path(path: Seq<char>) -> bool {
    exists|i: int|
        0 <= i < text_extensions().len() && ends_with(
            lowercase_text(path),
            #[trigger] text_extensions()[i],
        )
}

fn ends_with_any(s: &[char], exts: &[&'static str]) -> (r: bool)
    ensures
        r == exists|i: int| 0 <= i < exts@.len() && ends_with(s@, (#[trigger] exts@[i])@),
{
    let mut i: usize = 0;
    while i < exts.len()
        invariant
            i <= exts@.len(),
            forall|k: int| 0 <= k < i ==> !ends_with(s@, (#[trigger] exts@[k])@),
        decreases exts.len() - i,
    {
        let e = chars_of(exts[i]);
        if ends_with_chars(s, e.as_slice()) {
            return true;
        }
        i += 1;
    }
    false
}

/// Whether a file can be opened as text in the editor.
pub fn is_text_file(path: &str) -> (r: bool)
    ensures
        r == is_text_path(path@),
{
    let lower = to_lowercase(path);
    let cs = chars_of(lower.as_str());
    let a = ends_with_any(cs.as_slice(), &TEXT_EXTENSIONS);
    let b = ends_with_any(cs.as_slice(), &MORE_TEXT_EXTENSIONS);
    proof {
        let t = text_extensions();
        let n = TEXT_EXTENSIONS@.len();
        assert(t.len() == n + MORE_TEXT_EXTENSIONS@.len());
        assert forall|i: int| 0 <= i < n implies #[trigger] t[i] == TEXT_EXTENSIONS@[i]@ by {}
        assert forall|i: int| 0 <= i < MORE_TEXT_EXTENSIONS@.len() implies #[trigger] t[n + i]
            == MORE_TEXT_EXTENSIONS@[i]@ by {}
        if a {
            let i = choose|i: int|
                0 <= i < TEXT_EXTENSIONS@.len() && ends_with(cs@, (#[trigger] TEXT_EXTENSIONS@[i])@);
            assert(ends_with(lowercase_text(path@), t[i]));
        }
        if b {
            let i = choose|i: int|
                0 <= i < MORE_TEXT_EXTENSIONS@.len() && ends_with(
                    cs@,
                    (#[trigger] MORE_TEXT_EXTENSIONS@[i])@,
                );
            assert(ends_with(lowercase_text(path@), t[n + i]));
        }
        if is_text_path(path@) {
            let i = choose|i: int|
                0 <= i < t.len() && ends_with(lowercase_text(path@), #[trigger] t[i]);
            if i < n {
                assert(ends_with(cs@, TEXT_EXTENSIONS@[i]@));
            } else {
                assert(ends_with(cs@, MORE_TEXT_EXTENSIONS@[i - n]@));
            }
        }
    }
    a || b
}

/// Where a clicked file lives: a path with a `:` or a leading `/` or `\`
/// is absolute already; any other is relative to the vault root.
pub open spec fn resolved_path(vault_root: Seq<char>, rel: Seq<char>) -> Seq<char> {
    if contains(rel, seq![':']) || starts_with(rel, seq!['/']) || starts_with(rel, seq!['\\']) {
        rel
    } else {
        joined_path(vault_root, rel)
    }
}

/// The absolute path of a clicked file.
pub fn resolve_note_path(vault_root: &str, rel_path: &str) -> (r: String)
    ensures
        r@ == resolved_path(vault_root@, rel_path@),
{
    let cs = chars_of(rel_path);
    let colon = find_char_at(cs.as_slice(), ':', 0).is_some();
    proof {
        lemma_find_from(cs@, seq![':'], 0);
    }
    let absolute = colon || (cs.len() > 0 && (cs[0] == '/' || cs[0] == '\\'));
    proof {
        assert(colon == contains(rel_path@, seq![':']));
        if cs@.len() > 0 {
            let c0 = cs@[0];
            assert(cs@.take(1) =~= seq![c0]);
            assert(seq![c0][0] == c0);
            assert(seq!['/'][0] == '/');
            assert(seq!['\\'][0] == '\\');
            if c0 == '/' {
                assert(seq![c0] =~= seq!['/']);
            }
            if c0 == '\\' {
                assert(seq![c0] =~= seq!['\\']);
            }
        } else {
            assert(!starts_with(cs@, seq!['/']));
            assert(!starts_with(cs@, seq!['\\']));
        }
    }
    if absolute {
        string_from_chars(cs)
    } else {
        abs_path(vault_root, rel_path)
    }
}

/// The extension shown for a file the editor cannot preview: what follows
/// the last `.`, or the whole path when it has none.
pub open spec fn extension_of(path: Seq<char>) -> Seq<char>
    decreases path.len(),
{
    if path.len() == 0 {
        path
    } else if path.last() == '.' {
        Seq::empty()
    } else {
        extension_of(path.drop_last()).push(path.last())
    }
}

fn extension_start(cs: &[char]) -> (r: usize)
    ensures
        r <= cs@.len(),
        cs@.skip(r as int) == extension_of(cs@),
{
    let mut i: usize = cs.len();
    assert(cs@.take(cs@.len() as int) == cs@);
    assert(cs@.skip(cs@.len() as int) =~= Seq::<char>::empty());
    while i > 0
        invariant
            i <= cs@.len(),
            forall|k: int| i <= k < cs@.len() ==> cs@[k] != '.',
            extension_of(cs@) == extension_of(cs@.take(i as int)) + cs@.skip(i as int),
        decreases i,
    {
        let ghost t = cs@.take(i as int);
        assert(t.drop_last() == cs@.take(i - 1));
        if cs[i - 1] == '.' {
            assert(extension_of(t) == Seq::<char>::empty());
            assert(extension_of(cs@) =~= cs@.skip(i as int));
            return i;
        }
        assert(cs@.skip(i - 1) =~= seq![cs@[i - 1]] + cs@.skip(i as int));
        i -= 1;
    }
    assert(cs@.take(0) =~= Seq::<char>::empty());
    assert(extension_of(cs@) =~= cs@.skip(0));
    0
}

/// The editor text shown for a file that cannot be previewed.
pub open spec fn unsupported_text(rel: Seq<char>) -> Seq<char> {
    "# "@ + file_name_of(rel) + "\n\n> Binary or unsupported file format (`."@ + extension_of(rel)
        + "`)\n>\n> This file cannot be previewed in the editor yet.\n> Path: `"@ + rel + "`"@
}

/// The editor text shown for a file that cannot be previewed: its name, its
/// extension and its path.
pub fn unsupported_file_text(rel_path: &str) -> (r: String)
    ensures
        r@ == unsupported_text(rel_path@),
{
    let cs = chars_of(rel_path);
    let start = extension_start(cs.as_slice());
    let mut v = chars_of("# ");
    push_all(&mut v, chars_of(file_name_from_path(rel_path)).as_slice());
    push_all(&mut v, chars_of("\n\n> Binary or unsupported file format (`.").as_slice());
    push_all(&mut v, crate::text::slice_from(cs.as_slice(), start));
    push_all(
        &mut v,
        chars_of("`)\n>\n> This file cannot be previewed in the editor yet.\n> Path: `").as_slice(),
    );
    push_all(&mut v, cs.as_slice());
    push_all(&mut v, chars_of("`").as_slice());
    string_from_chars(v)
}

/// The name shown for a note: its file name, without `.md` unless
/// extensions are shown.
pub open spec fn display_name_of(path: Seq<char>, show_extensions: bool) -> Seq<char> {
    let name = file_name_of(path);
    if !show_extensions && ends_with(name, ".md"@) {
        name.take(name.len() - 3)
    } else {
        name
    }
}

/// The name shown for a note in the sidebar.
pub fn note_display_name(path: &str, show_extensions: bool) -> (r: String)
    ensures
        r@ == display_name_of(path@, show_extensions),
{
    let name = chars_of(file_name_from_path(path));
    let md = chars_of(".md");
    proof {
        reveal_strlit(".md");
    }
    if !show_extensions && ends_with_chars(name.as_slice(), md.as_slice()) {
        let n = name.len() - 3;
        let t = crate::text::copy_range(name.as_slice(), 0, n);
        assert(name@.subrange(0, n as int) == name@.take(n as int));
        string_from_chars(t)
    } else {
        string_from_chars(name)
    }
}

/// A path is hidden when one of its components starts with `.`.
pub open spec fn is_hidden(path: Seq<char>) -> bool {
    exists|i: int|
        0 <= i < components(path).len() && starts_with(
            #[trigger] components(path)[i],
            seq!['.'],
        )
}

/// Whether a path is hidden (a component of it starts with `.`).
pub fn is_hidden_path(path: &str) -> (r: bool)
    ensures
        r == is_hidden(path@),
{
    let parts = split_path(path);
    let mut i: usize = 0;
    while i < parts.len()
        invariant
            i <= parts@.len(),
            parts.deep_view() == components(path@),
            forall|k: int| 0 <= k < i ==> !starts_with(#[trigger] components(path@)[k], seq!['.']),
        decreases parts.len() - i,
    {
        let p = chars_of(parts[i]);
        assert(parts.deep_view()[i as int] == parts@[i as int]@);
        if p.len() > 0 && p[0] == '.' {
            assert(p@.take(1) =~= seq!['.']);
            return true;
        }
        assert(p@.len() > 0 ==> p@.take(1) != seq!['.']) by {
            if p@.len() > 0 {
                assert(p@.take(1)[0] == p@[0]);
            }
        }
        i += 1;
    }
    false
}

/// The paths the sidebar shows: all of them, or those that are not hidden.
pub open spec fn shown_paths(paths: Seq<Seq<char>>, show_hidden: bool) -> Seq<Seq<char>> {
    if show_hidden {
        paths
    } else {
        paths.filter(|p: Seq<char>| !is_hidden(p))
    }
}

/// The paths the sidebar shows, in their order.
pub fn visible_paths(paths: &[String], show_hidden: bool) -> (r: Vec<String>)
    ensures
        r.deep_view() == shown_paths(paths.deep_view(), show_hidden),
{
    let ghost pv = paths.deep_view();
    let mut out: Vec<String> = Vec::new();
    let mut i: usize = 0;
    while i < paths.len()
        invariant
            i <= paths@.len(),
            pv == paths.deep_view(),
            out.deep_view() == shown_paths(pv.take(i as int), show_hidden),
        decreases paths.len() - i,
    {
        let ghost before = out.deep_view();
        assert(pv.take(i + 1) == pv.take(i as int).push(pv[i as int]));
        proof {
            pv.take(i as int).lemma_filter_push(pv[i as int], |p: Seq<char>| !is_hidden(p));
        }
        assert(pv[i as int] == paths@[i as int]@);
        if show_hidden || !is_hidden_path(paths[i].as_str()) {
            let s = string_from_chars(chars_of(paths[i].as_str()));
            out.push(s);
            assert(out.deep_view() =~= before.push(pv[i as int]));
        }
        i += 1;
    }
    assert(pv.take(pv.len() as int) == pv);
    out
}

/// `\\?\`: the prefix of Windows extended-length paths.
pub open spec fn extended_prefix() -> Seq<char> {
    seq!['\\', '\\', '?', '\\']
}

/// A path reported by the file watcher, without the `\\?\` prefix that
/// Windows may put before it.
pub open spec fn watched_path(changed: Seq<char>) -> Seq<char> {
    if starts_with(changed, extended_prefix()) {
        changed.skip(4)
    } else {
        changed
    }
}

/// Normalise a path received from the file watcher to the plain form that
/// tabs store: a leading `\\?\` is removed.
pub fn normalize_watched_path(changed_path: &str) -> (r: String)
    ensures
        r@ == watched_path(changed_path@),
{
    let cs = chars_of(changed_path);
    let prefix = ['\\', '\\', '?', '\\'];
    assert(prefix@ =~= extended_prefix());
    if starts_with_chars(cs.as_slice(), &prefix) {
        let mut rest: Vec<char> = Vec::new();
        push_all(&mut rest, slice_from(cs.as_slice(), 4));
        assert(rest@ =~= changed_path@.skip(4));
        string_from_chars(rest)
    } else {
        string_from_chars(cs)
    }
}

/// Which note to reload after the file watcher reports a change: the
/// changed file, normalised, when it is the current note and the tab that
/// shows it (the first, if several do) has no unsaved edits.
pub open spec fn reload_target(
    current_note: Option<Seq<char>>,
    changed: Seq<char>,
    tabs: Seq<TabView>,
) -> Option<Seq<char>> {
    let n = watched_path(changed);
    let modified = match position_of_path(tabs, n) {
        Some(i) => tabs[i].modified,
        None => false,
    };
    if current_note == Some(n) && !modified {
        Some(n)
    } else {
        None
    }
}

/// Decide whether a change reported by the file watcher reloads the
/// editor: returns the path to reload, or `None` when the changed file is
/// not the current note or its tab holds unsaved edits (which a reload
/// would overwrite).
pub fn reload_on_change(current_note: &Option<String>, changed_path: &str, tabs: &TabManager) -> (r:
    Option<String>)
    ensures
        match r {
            Some(p) => reload_target(opt_string_view(current_note), changed_path@, tabs@.tabs)
                == Some(p@),
            None => reload_target(opt_string_view(current_note), changed_path@, tabs@.tabs) is None,
        },
{
    let n = normalize_watched_path(changed_path);
    let active_matches = match current_note {
        Some(c) => eq_chars(chars_of(c.as_str()).as_slice(), chars_of(n.as_str()).as_slice()),
        None => false,
    };
    if !active_matches {
        return None;
    }
    let modified = match tabs.find_path(n.as_str()) {
        Some(i) => tabs.tabs[i].modified,
        None => false,
    };
    if modified {
        None
    } else {
        Some(n)
    }
}

/// The view of an optional string.
pub open spec fn opt_string_view(o: &Option<String>) -> Option<Seq<char>> {
    match o {
        Some(s) => Some(s@),
        None => None,
    }
}

} // verus!

//! Decisions of the command palette: which notes match the query, and how
//! the selection moves.
use vstd::prelude::*;
use crate::paths::{note_title, title_of};
use crate::text::{chars_of, contains, find_at, lowercase_text, string_from_chars, to_lowercase};

verus! {

/// The palette shows at most this many notes.
pub const MAX_RESULTS: usize = 10;

/// Whether a note's title contains the (lowercased) query, ignoring case.
pub open spec fn title_matches(path: Seq<char>, q: Seq<char>) -> bool {
    contains(lowercase_text(title_of(path)), q)
}

/// The notes whose title matches the query: all of them for an empty
/// (lowercased) query.
pub open spec fn matching_notes(notes: Seq<Seq<char>>, query: Seq<char>) -> Seq<Seq<char>> {
    let q = lowercase_text(query);
    if q.len() == 0 {
        notes
    } else {
        notes.filter(|p: Seq<char>| title_matches(p, q))
    }
}

/// What the palette lists: the first [`MAX_RESULTS`] matching notes, in
/// their order.
pub open spec fn palette_results(notes: Seq<Seq<char>>, query: Seq<char>) -> Seq<Seq<char>> {
    let m = matching_notes(notes, query);
    if m.len() <= MAX_RESULTS {
        m
    } else {
        m.take(MAX_RESULTS as int)
    }
}

/// The notes the palette lists for a query: case-insensitive match on the
/// note title, at most [`MAX_RESULTS`].
pub fn filter_notes(notes: &[String], query: &str) -> (r: Vec<String>)
    ensures
        r.deep_view() == palette_results(notes.deep_view(), query@),
{
    let q = chars_of(to_lowercase(query).as_str());
    let ghost pv = notes.deep_view();
    let ghost f = |p: Seq<char>| title_matches(p, q@);
    let mut all: Vec<String> = Vec::new();
    let mut i: usize = 0;
    while i < notes.len()
        invariant
            i <= notes@.len(),
            pv == notes.deep_view(),
            q@ == lowercase_text(query@),
            f == (|p: Seq<char>| title_matches(p, q@)),
            all.deep_view() == if q@.len() == 0 {
                pv.take(i as int)
            } else {
                pv.take(i as int).filter(f)
            },
        decreases notes.len() - i,
    {
        let ghost before = all.deep_view();
        assert(pv.take(i + 1) == pv.take(i as int).push(pv[i as int]));
        proof {
            pv.take(i as int).lemma_filter_push(pv[i as int], f);
        }
        assert(pv[i as int] == notes@[i as int]@);
        let keep = if q.len() == 0 {
            true
        } else {
            let t = chars_of(to_lowercase(note_title(notes[i].as_str())).as_str());
            find_at(t.as_slice(), q.as_slice(), 0).is_some()
        };
        if keep {
            all.push(string_from_chars(chars_of(notes[i].as_str())));
            assert(all.deep_view() =~= before.push(pv[i as int]));
        }
        i += 1;
    }
    assert(pv.take(pv.len() as int) == pv);
    let n = if all.len() <= MAX_RESULTS {
        all.len()
    } else {
        MAX_RESULTS
    };
    let mut out: Vec<String> = Vec::new();
    let mut k: usize = 0;
    while k < n
        invariant
            n <= all@.len(),
            k <= n,
            out.deep_view() == all.deep_view().take(k as int),
        decreases n - k,
    {
        assert(all.deep_view()[k as int] == all@[k as int]@);
        let ghost before = out.deep_view();
        let s = string_from_chars(chars_of(all[k].as_str()));
        out.push(s);
        assert(out.deep_view() =~= before.push(all.deep_view()[k as int]));
        assert(out.deep_view() =~= all.deep_view().take(k + 1));
        k += 1;
    }
    assert(all.deep_view().len() == all@.len());
    if n == all.len() {
        assert(all.deep_view().take(n as int) =~= all.deep_view());
    }
    out
}

/// Moving the selection down: one step, but not past the last result.
pub fn select_next(selected: usize, len: usize) -> (r: usize)
    requires
        selected < usize::MAX,
    ensures
        r == if len == 0 {
            0
        } else if selected + 1 < len {
            selected + 1
        } else {
            len - 1
        },
{
    let last = if len == 0 {
        0
    } else {
        len - 1
    };
    if selected + 1 < last {
        selected + 1
    } else {
        last
    }
}

/// Moving the selection up: one step, but not past the first result.
pub fn select_prev(selected: usize) -> (r: usize)
    ensures
        r == if selected == 0 {
            0
        } else {
            selected - 1
        },
{
    if selected == 0 {
        0
    } else {
        selected - 1
    }
}

} // verus!

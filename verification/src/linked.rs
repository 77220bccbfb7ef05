//! What the graph view draws of a link snapshot: the notes that take part in
//! some link, how many link ends each has, and which of them are hubs.
use vstd::prelude::*;
use crate::text::chars_of;
use crate::wikilink::eq_chars;

verus! {

/// Notes with at least this many link ends are drawn as hubs.
pub const HUB_THRESHOLD: usize = 5;

/// The links of a snapshot, as pairs of note ids (source, target).
pub open spec fn link_views(edges: Seq<(String, String)>) -> Seq<(Seq<char>, Seq<char>)> {
    edges.map_values(|e: (String, String)| (e.0@, e.1@))
}

/// `p` with `x` added at the end, unless it is already there.
pub open spec fn add_new(p: Seq<Seq<char>>, x: Seq<char>) -> Seq<Seq<char>> {
    if p.contains(x) {
        p
    } else {
        p.push(x)
    }
}

/// The notes that take part in a link, each once, in the order in which
/// they first occur (source before target).
pub open spec fn linked_order(es: Seq<(Seq<char>, Seq<char>)>) -> Seq<Seq<char>>
    decreases es.len(),
{
    if es.len() == 0 {
        seq![]
    } else {
        add_new(add_new(linked_order(es.drop_last()), es.last().0), es.last().1)
    }
}

/// Whether `id` is the source or the target of some link.
pub open spec fn is_endpoint(es: Seq<(Seq<char>, Seq<char>)>, id: Seq<char>) -> bool {
    exists|i: int| 0 <= i < es.len() && ((#[trigger] es[i]).0 == id || es[i].1 == id)
}

/// How many link ends `id` has: a link from a note to itself counts twice.
pub open spec fn degree_of(es: Seq<(Seq<char>, Seq<char>)>, id: Seq<char>) -> nat
    decreases es.len(),
{
    if es.len() == 0 {
        0
    } else {
        degree_of(es.drop_last(), id) + (if es.last().0 == id {
            1nat
        } else {
            0nat
        }) + (if es.last().1 == id {
            1nat
        } else {
            0nat
        })
    }
}

/// The links both of whose ends are among `nodes`, in order.
pub open spec fn links_among(es: Seq<(Seq<char>, Seq<char>)>, nodes: Seq<Seq<char>>) -> Seq<
    (Seq<char>, Seq<char>),
>
    decreases es.len(),
{
    if es.len() == 0 {
        seq![]
    } else {
        links_among(es.drop_last(), nodes) + if nodes.contains(es.last().0) && nodes.contains(
            es.last().1,
        ) {
            seq![es.last()]
        } else {
            seq![]
        }
    }
}

fn same_text(a: &String, b: &String) -> (r: bool)
    ensures
        r == (a@ == b@),
{
    eq_chars(chars_of(a.as_str()).as_slice(), chars_of(b.as_str()).as_slice())
}

fn holds_text(v: &Vec<String>, x: &String) -> (r: bool)
    ensures
        r == v@.map_values(|s: String| s@).contains(x@),
{
    let ghost vv = v@.map_values(|s: String| s@);
    let mut i: usize = 0;
    while i < v.len()
        invariant
            i <= v@.len(),
            vv == v@.map_values(|s: String| s@),
            forall|k: int| 0 <= k < i ==> vv[k] != x@,
        decreases v.len() - i,
    {
        if same_text(&v[i], x) {
            assert(vv[i as int] == x@);
            return true;
        }
        i += 1;
    }
    false
}

fn push_new(v: &mut Vec<String>, x: &String)
    ensures
        final(v)@.map_values(|s: String| s@) == add_new(old(v)@.map_values(|s: String| s@), x@),
{
    if !holds_text(v, x) {
        v.push(x.clone());
        assert(v@.map_values(|s: String| s@) =~= old(v)@.map_values(|s: String| s@).push(x@));
    }
}

/// The notes that take part in some link of the snapshot, each once, in the
/// order in which they first occur.
pub fn linked_notes(edges: &Vec<(String, String)>) -> (r: Vec<String>)
    ensures
        r@.map_values(|s: String| s@) == linked_order(link_views(edges@)),
{
    let ghost es = link_views(edges@);
    let mut out: Vec<String> = Vec::new();
    let mut i: usize = 0;
    assert(out@.map_values(|s: String| s@) =~= linked_order(es.take(0)));
    while i < edges.len()
        invariant
            i <= edges@.len(),
            es == link_views(edges@),
            out@.map_values(|s: String| s@) == linked_order(es.take(i as int)),
        decreases edges.len() - i,
    {
        assert(es.take(i + 1).drop_last() =~= es.take(i as int));
        assert(es.take(i + 1).last() == es[i as int]);
        push_new(&mut out, &edges[i].0);
        push_new(&mut out, &edges[i].1);
        i += 1;
    }
    assert(es.take(edges@.len() as int) =~= es);
    out
}

/// How many link ends the note `id` has in the snapshot.
pub fn link_degree(edges: &Vec<(String, String)>, id: &String) -> (r: usize)
    requires
        edges@.len() <= usize::MAX / 2,
    ensures
        r == degree_of(link_views(edges@), id@),
{
    let ghost es = link_views(edges@);
    let mut d: usize = 0;
    let mut i: usize = 0;
    while i < edges.len()
        invariant
            i <= edges@.len() <= usize::MAX / 2,
            es == link_views(edges@),
            d == degree_of(es.take(i as int), id@),
            d <= 2 * i,
        decreases edges.len() - i,
    {
        assert(es.take(i + 1).drop_last() =~= es.take(i as int));
        assert(es.take(i + 1).last() == es[i as int]);
        if same_text(&edges[i].0, id) {
            d += 1;
        }
        if same_text(&edges[i].1, id) {
            d += 1;
        }
        i += 1;
    }
    assert(es.take(edges@.len() as int) =~= es);
    d
}

/// Whether a note with this many link ends is drawn as a hub.
pub fn is_hub(degree: usize) -> (r: bool)
    ensures
        r == (degree >= HUB_THRESHOLD),
{
    degree >= HUB_THRESHOLD
}

/// The links of the snapshot both of whose ends are among `nodes`, in order.
pub fn links_between(edges: &Vec<(String, String)>, nodes: &Vec<String>) -> (r: Vec<
    (String, String),
>)
    ensures
        link_views(r@) == links_among(link_views(edges@), nodes@.map_values(|s: String| s@)),
{
    let ghost es = link_views(edges@);
    let ghost ns = nodes@.map_values(|s: String| s@);
    let mut out: Vec<(String, String)> = Vec::new();
    let mut i: usize = 0;
    assert(link_views(out@) =~= links_among(es.take(0), ns));
    while i < edges.len()
        invariant
            i <= edges@.len(),
            es == link_views(edges@),
            ns == nodes@.map_values(|s: String| s@),
            link_views(out@) == links_among(es.take(i as int), ns),
        decreases edges.len() - i,
    {
        assert(es.take(i + 1).drop_last() =~= es.take(i as int));
        assert(es.take(i + 1).last() == es[i as int]);
        let ghost before = link_views(out@);
        if holds_text(nodes, &edges[i].0) && holds_text(nodes, &edges[i].1) {
            let e = (edges[i].0.clone(), edges[i].1.clone());
            out.push(e);
            assert(link_views(out@) =~= before.push(es[i as int]));
        } else {
            assert(link_views(out@) =~= before + Seq::<(Seq<char>, Seq<char>)>::empty());
        }
        i += 1;
    }
    assert(es.take(edges@.len() as int) =~= es);
    out
}

proof fn lemma_add_new(p: Seq<Seq<char>>, x: Seq<char>)
    ensures
        p.no_duplicates() ==> add_new(p, x).no_duplicates(),
        forall|y: Seq<char>| #[trigger] add_new(p, x).contains(y) <==> (p.contains(y) || y == x),
{
    if !p.contains(x) {
        assert forall|y: Seq<char>| #[trigger] p.push(x).contains(y) <==> (p.contains(y) || y
            == x) by {
            if p.push(x).contains(y) {
                let k = choose|k: int| 0 <= k < p.push(x).len() && p.push(x)[k] == y;
                if k < p.len() {
                    assert(p[k] == y);
                }
            }
            if p.contains(y) {
                let k = choose|k: int| 0 <= k < p.len() && p[k] == y;
                assert(p.push(x)[k] == y);
            }
            if y == x {
                assert(p.push(x)[p.len() as int] == y);
            }
        }
    }
}

/// The linked notes are listed once each, and they are exactly the notes
/// that are the source or the target of some link.
pub proof fn law_linked_notes(es: Seq<(Seq<char>, Seq<char>)>)
    ensures
        linked_order(es).no_duplicates(),
        forall|id: Seq<char>| #[trigger] linked_order(es).contains(id) <==> is_endpoint(es, id),
    decreases es.len(),
{
    if es.len() > 0 {
        let q = es.drop_last();
        law_linked_notes(q);
        let p = linked_order(q);
        lemma_add_new(p, es.last().0);
        lemma_add_new(add_new(p, es.last().0), es.last().1);
        assert forall|id: Seq<char>| #[trigger] linked_order(es).contains(id) <==> is_endpoint(
            es,
            id,
        ) by {
            if is_endpoint(q, id) {
                let i = choose|i: int| 0 <= i < q.len() && ((#[trigger] q[i]).0 == id || q[i].1 == id);
                assert(es[i] == q[i]);
            }
            if is_endpoint(es, id) {
                let i = choose|i: int| 0 <= i < es.len() && ((#[trigger] es[i]).0 == id || es[i].1
                    == id);
                if i < q.len() {
                    assert(es[i] == q[i]);
                    assert(is_endpoint(q, id));
                }
            }
            if es.last().0 == id || es.last().1 == id {
                assert(es[es.len() - 1] == es.last());
            }
        }
    }
}

/// Every link has both ends among the notes it was given, so none is left
/// out.
proof fn lemma_links_among_all(es: Seq<(Seq<char>, Seq<char>)>, nodes: Seq<Seq<char>>)
    requires
        forall|i: int| 0 <= i < es.len() ==> nodes.contains((#[trigger] es[i]).0) && nodes.contains(
            es[i].1,
        ),
    ensures
        links_among(es, nodes) == es,
    decreases es.len(),
{
    if es.len() > 0 {
        let q = es.drop_last();
        assert forall|i: int| 0 <= i < q.len() implies nodes.contains((#[trigger] q[i]).0)
            && nodes.contains(q[i].1) by {
            assert(q[i] == es[i]);
        }
        lemma_links_among_all(q, nodes);
        assert(es[es.len() - 1] == es.last());
        assert(es =~= q.push(es.last()));
    }
}

/// Restricting a snapshot's links to its linked notes keeps every link, in
/// order.
pub proof fn law_links_between_linked_notes(es: Seq<(Seq<char>, Seq<char>)>)
    ensures
        links_among(es, linked_order(es)) == es,
{
    law_linked_notes(es);
    assert forall|i: int| 0 <= i < es.len() implies linked_order(es).contains((#[trigger] es[i]).0)
        && linked_order(es).contains(es[i].1) by {
        assert(is_endpoint(es, es[i].0));
        assert(is_endpoint(es, es[i].1));
    }
    lemma_links_among_all(es, linked_order(es));
}

/// A note has link ends exactly when it is a linked note.
pub proof fn law_degree_positive(es: Seq<(Seq<char>, Seq<char>)>, id: Seq<char>)
    ensures
        degree_of(es, id) > 0 <==> is_endpoint(es, id),
    decreases es.len(),
{
    if es.len() > 0 {
        let q = es.drop_last();
        law_degree_positive(q, id);
        if is_endpoint(q, id) {
            let i = choose|i: int| 0 <= i < q.len() && ((#[trigger] q[i]).0 == id || q[i].1 == id);
            assert(es[i] == q[i]);
        }
        if is_endpoint(es, id) {
            let i = choose|i: int| 0 <= i < es.len() && ((#[trigger] es[i]).0 == id || es[i].1 == id);
            if i < q.len() {
                assert(es[i] == q[i]);
                assert(is_endpoint(q, id));
            }
        }
        if es.last().0 == id || es.last().1 == id {
            assert(es[es.len() - 1] == es.last());
        }
    }
}

} // verus!

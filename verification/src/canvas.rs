//! The infinite canvas: items keyed by id, a viewport transform, and the
//! choice of the topmost item under the cursor.
//!
//! The canvas is generic over the geometry it carries: `B`, the bounds of an
//! item, and `V`, the viewport transform.  It never reads them; whoever
//! draws the canvas decides what they hold (floating-point rectangles and a
//! pan/zoom transform in the application).
use vstd::prelude::*;
use std::collections::HashMap;
use vstd::std_specs::iter::IteratorSpec;
use crate::abcde::Priority;
use crate::errors::concat3;
use crate::ids::{random_uuid, is_v4, uuid_string, uuid_text, NoteId};

verus! {

broadcast use vstd::std_specs::hash::group_hash_axioms;

/// A unique identifier for a canvas item.
#[derive(Debug, Clone, Copy, PartialEq, Eq, Structural, Hash)]
pub struct ItemId(u128);

impl View for ItemId {
    type V = u128;

    closed spec fn view(&self) -> u128 {
        self.0
    }
}

impl ItemId {
    /// Two item ids are equal exactly when their values are.
    pub proof fn lemma_view_injective(a: ItemId, b: ItemId)
        ensures
            (a@ == b@) <==> (a == b),
    {
    }

    /// Create a new random `ItemId`.
    pub fn new() -> (r: Self)
        ensures
            is_v4(r@),
    {
        ItemId(random_uuid())
    }

    /// The debug form of the id: `ItemId(` and its hyphenated UUID text, `)`.
    pub fn debug_text(&self) -> (r: String)
        ensures
            r@ == item_id_debug(self@),
    {
        let u = uuid_string(self.0);
        concat3("ItemId(", u.as_str(), ")")
    }
}

impl Default for ItemId {
    /// A new random id, as [`ItemId::new`].
    fn default() -> (r: Self)
        ensures
            is_v4(r@),
    {
        Self::new()
    }
}

/// The type-specific content of a canvas item.
#[derive(Debug, Clone)]
pub enum ItemContent {
    /// A linked note card displayed on the canvas.
    Note { note_id: NoteId },
    /// A standalone task card with ABCDE priority.
    Task { title: String, priority: Priority, done: bool },
    /// A freeform text label.
    Label { text: String },
}

/// A positioned item on the infinite canvas.
#[derive(Debug, Clone)]
pub struct CanvasItem<B> {
    pub id: ItemId,
    pub bounds: B,
    pub content: ItemContent,
    pub z_index: i32,
}

/// Error type of the canvas.
#[derive(Debug)]
pub enum CanvasError {
    /// An operation targeted an item that does not exist on the canvas.
    ItemNotFound { id: ItemId },
}

/// The debug form of an item id value: `ItemId(` and its hyphenated UUID
/// text, `)`.
pub open spec fn item_id_debug(v: u128) -> Seq<char> {
    "ItemId("@ + uuid_text(v) + ")"@
}

/// The message of a canvas error: `canvas item ItemId(..) not found`.
pub open spec fn canvas_error_text(e: CanvasError) -> Seq<char> {
    match e {
        CanvasError::ItemNotFound { id } => "canvas item "@ + item_id_debug(id@) + " not found"@,
    }
}

impl CanvasError {
    /// The error message: `canvas item ItemId(..) not found`.
    pub fn to_string(&self) -> (r: String)
        ensures
            r@ == canvas_error_text(*self),
    {
        match self {
            CanvasError::ItemNotFound { id } => {
                let d = id.debug_text();
                concat3("canvas item ", d.as_str(), " not found")
            },
        }
    }
}

/// The abstract state of a canvas: its items by id value, and the viewport.
pub struct CanvasState<B, V> {
    pub items: Map<u128, CanvasItem<B>>,
    pub viewport: V,
}

/// The root canvas state — owns all items and the viewport transform.
#[derive(Debug)]
pub struct Canvas<B, V> {
    items: HashMap<u128, CanvasItem<B>>,
    viewport: V,
}

impl<B, V> View for Canvas<B, V> {
    type V = CanvasState<B, V>;

    closed spec fn view(&self) -> CanvasState<B, V> {
        CanvasState { items: self.items@, viewport: self.viewport }
    }
}

impl<B, V> Canvas<B, V> {
    /// Every item is kept under its own id; every canvas keeps this.
    #[verifier::type_invariant]
    spec fn keyed_by_id(&self) -> bool {
        forall|k: u128| #[trigger] self.items@.contains_key(k) ==> self.items@[k].id@ == k
    }

    /// Every item is kept under its own id.
    pub open spec fn wf(&self) -> bool {
        forall|k: u128| #[trigger] self@.items.contains_key(k) ==> self@.items[k].id@ == k
    }

    /// Create an empty canvas with the default viewport.
    pub fn new() -> (r: Self)
        where
            V: Default,
        ensures
            r.wf(),
            r@.items == Map::<u128, CanvasItem<B>>::empty(),
    {
        let r = Canvas { items: HashMap::new(), viewport: V::default() };
        r
    }

    /// Insert or replace an item on the canvas.
    pub fn upsert(&mut self, item: CanvasItem<B>)
        ensures
            final(self).wf(),
            final(self)@.items == old(self)@.items.insert(item.id@, item),
            final(self)@.viewport == old(self)@.viewport,
    {
        proof {
            use_type_invariant(&*self);
        }
        let k = item.id.0;
        let mut items: HashMap<u128, CanvasItem<B>> = HashMap::new();
        std::mem::swap(&mut items, &mut self.items);
        items.insert(k, item);
        self.items = items;
    }

    /// Remove an item by id.
    ///
    /// # Errors
    /// Returns [`CanvasError::ItemNotFound`] if the id is unknown.
    pub fn remove(&mut self, id: ItemId) -> (r: Result<CanvasItem<B>, CanvasError>)
        ensures
            final(self).wf(),
            final(self)@.viewport == old(self)@.viewport,
            final(self)@.items == old(self)@.items.remove(id@),
            old(self)@.items.contains_key(id@) ==> r == Ok::<CanvasItem<B>, CanvasError>(
                old(self)@.items[id@],
            ),
            !old(self)@.items.contains_key(id@) ==> r == Err::<CanvasItem<B>, CanvasError>(
                CanvasError::ItemNotFound { id },
            ),
    {
        proof {
            use_type_invariant(&*self);
        }
        let mut items: HashMap<u128, CanvasItem<B>> = HashMap::new();
        std::mem::swap(&mut items, &mut self.items);
        let removed = items.remove(&id.0);
        self.items = items;
        match removed {
            Some(item) => Ok(item),
            None => Err(CanvasError::ItemNotFound { id }),
        }
    }

    /// All canvas items, each once, in no stated order.
    pub fn items(&self) -> (r: Vec<&CanvasItem<B>>)
        ensures
            r@.len() == self@.items.dom().len(),
            forall|i: int|
                0 <= i < r@.len() ==> self@.items.contains_key((#[trigger] r@[i]).id@)
                    && self@.items[r@[i].id@] == *r@[i],
            forall|i: int, j: int|
                0 <= i < j < r@.len() ==> (#[trigger] r@[i]).id@ != (#[trigger] r@[j]).id@,
            forall|k: u128|
                #[trigger] self@.items.contains_key(k) ==> exists|i: int|
                    0 <= i < r@.len() && (#[trigger] r@[i]).id@ == k,
    {
        proof {
            use_type_invariant(self);
        }
        let mut out: Vec<&CanvasItem<B>> = Vec::new();
        let ghost m = self@.items;
        let ghost s = vstd::std_specs::hash::spec_hash_map_iter(&self.items).remaining();
        proof {
            vstd::std_specs::hash::axiom_spec_hash_map_iter(&self.items);
        }
        for p in it: self.items.iter()
            invariant
                self.wf(),
                m == self@.items,
                it.seq() == s,
                out@.len() == it.index(),
                forall|i: int| 0 <= i < it.index() ==> out@[i] == (#[trigger] s[i]).1,
        {
            out.push(p.1);
        }
        proof {
            vstd::std_specs::hash::axiom_spec_hash_map_iter(&self.items);
            assert(out@.len() == s.len());
            assert forall|i: int| 0 <= i < out@.len() implies m.contains_key(
                (#[trigger] out@[i]).id@,
            ) && m[out@[i].id@] == *out@[i] by {
                assert(m.contains_key(*s[i].0) && m[*s[i].0] == *s[i].1);
            }
            assert forall|i: int, j: int| 0 <= i < j < out@.len() implies (#[trigger] out@[i]).id@
                != (#[trigger] out@[j]).id@ by {
                assert(m.contains_key(*s[i].0) && m[*s[i].0] == *s[i].1);
                assert(m.contains_key(*s[j].0) && m[*s[j].0] == *s[j].1);
                assert(s[i] != s[j]);
            }
            assert forall|k: u128| #[trigger] m.contains_key(k) implies exists|i: int|
                0 <= i < out@.len() && (#[trigger] out@[i]).id@ == k by {
                assert(s.contains((&k, &m[k])));
                let i = choose|i: int| 0 <= i < s.len() && s[i] == (&k, &m[k]);
                assert(out@[i].id@ == k);
            }
        }
        out
    }

    /// Update the viewport transform.
    pub fn set_viewport(&mut self, viewport: V)
        ensures
            final(self)@.items == old(self)@.items,
            final(self)@.viewport == viewport,
    {
        proof {
            use_type_invariant(&*self);
        }
        self.viewport = viewport;
    }

    /// Return the current viewport.
    pub fn viewport(&self) -> (r: V)
        where
            V: Copy,
        ensures
            r == self@.viewport,
    {
        self.viewport
    }
}

impl<B, V: Default> Default for Canvas<B, V> {
    /// An empty canvas, as [`Canvas::new`].
    fn default() -> (r: Self)
        ensures
            r.wf(),
            r@.items == Map::<u128, CanvasItem<B>>::empty(),
    {
        Self::new()
    }
}

/// The item that a hit test picks: among the items that the point hits
/// (`hits[i]`), the one with the highest z-index, and of those the first.
/// This is the first hit in the items stably sorted by descending z-index.
pub open spec fn is_topmost_hit<B>(items: Seq<CanvasItem<B>>, hits: Seq<bool>, i: int) -> bool {
    &&& 0 <= i < items.len()
    &&& hits[i]
    &&& forall|j: int|
        0 <= j < items.len() && #[trigger] hits[j] ==> items[j].z_index < items[i].z_index || (
        items[j].z_index == items[i].z_index && i <= j)
}

/// Find the topmost canvas item under the cursor, given for each item
/// whether the cursor lies in its bounds.  Items are tested in descending
/// z-index order; among equal z-indices the earlier item wins.
pub fn topmost_hit<B>(items: &[CanvasItem<B>], hits: &[bool]) -> (r: Option<usize>)
    requires
        items@.len() == hits@.len(),
    ensures
        match r {
            Some(i) => is_topmost_hit(items@, hits@, i as int),
            None => forall|j: int| 0 <= j < hits@.len() ==> !#[trigger] hits@[j],
        },
{
    let mut best: Option<usize> = None;
    let mut j: usize = 0;
    while j < items.len()
        invariant
            items@.len() == hits@.len(),
            j <= items@.len(),
            match best {
                Some(i) => is_topmost_hit(items@.take(j as int), hits@.take(j as int), i as int),
                None => forall|k: int| 0 <= k < j ==> !#[trigger] hits@[k],
            },
        decreases items.len() - j,
    {
        if hits[j] {
            match best {
                None => {
                    best = Some(j);
                },
                Some(i) => {
                    if items[j].z_index > items[i].z_index {
                        best = Some(j);
                    }
                },
            }
        }
        j += 1;
    }
    proof {
        assert(items@.take(j as int) == items@);
        assert(hits@.take(j as int) == hits@);
    }
    best
}

/// What a read gives back of a write: after upserting an item, removing its
/// id gives back that item and leaves the canvas as removing it before would
/// have; after a removal the id is gone, so a second removal fails.
pub proof fn law_upsert_then_remove<B>(items: Map<u128, CanvasItem<B>>, item: CanvasItem<B>)
    ensures
        items.insert(item.id@, item).contains_key(item.id@),
        items.insert(item.id@, item)[item.id@] == item,
        items.insert(item.id@, item).remove(item.id@) == items.remove(item.id@),
        !items.remove(item.id@).contains_key(item.id@),
{
    assert(items.insert(item.id@, item).remove(item.id@) =~= items.remove(item.id@));
}

} // verus!

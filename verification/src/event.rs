//! Domain events emitted by the engine, shared by the backend and the
//! frontend.
use vstd::prelude::*;
use crate::ids::NoteId;

verus! {

/// An event produced by the engine.
#[derive(Debug, Clone, Copy, PartialEq, Eq, Structural)]
pub enum EngineEvent {
    /// A note was created or updated.
    NoteChanged { id: NoteId },
    /// A note was deleted from the vault.
    NoteDeleted { id: NoteId },
    /// The backlink graph was rebuilt.
    GraphRebuilt,
    /// Full-text index rebuild completed.
    IndexRebuilt,
}

} // verus!

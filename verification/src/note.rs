//! The note as stored in the vault.
use vstd::prelude::*;
use std::collections::HashMap;
use crate::ids::NoteId;

verus! {

/// A note as stored in the vault.
///
/// The `body` field holds the raw Markdown source, frontmatter block
/// included; parsed views of it come from the frontmatter and link modules.
/// Times are milliseconds since the Unix epoch, in UTC.
#[derive(Debug, Clone)]
pub struct Note {
    /// Stable unique identifier, assigned once at creation.
    pub id: NoteId,
    /// Absolute path on the file system.
    pub path: String,
    /// Raw Markdown content (frontmatter included).
    pub body: String,
    /// Frontmatter key/value pairs, as `editor_frontmatter::extract` returns them.
    pub frontmatter: HashMap<String, serde_json::Value>,
    /// Wall-clock time of the last modification.
    pub modified_at: i64,
    /// Wall-clock time of creation (frontmatter `created` field, or the
    /// file's creation time).
    pub created_at: i64,
}

} // verus!

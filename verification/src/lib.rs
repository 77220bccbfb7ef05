//! Verified core of a personal knowledge-management engine: note formats,
//! link extraction, vault paths, tabs and the backlink graph.
pub mod text;
pub mod format;
pub mod frontmatter;
pub mod link;
pub mod markdown;
pub mod wikilink;
pub mod parser;
pub mod links;
pub mod errors;
pub mod editor_frontmatter;
pub mod paths;
pub mod tree;
pub mod tabs;
pub mod abcde;
pub mod ids;
pub mod event;
pub mod graph;
pub mod query;
pub mod canvas;
pub mod sidebar;
pub mod palette;
pub mod navigate;
pub mod settings;
pub mod autosave;
pub mod linked;
pub mod note;
pub mod external;

//! YAML frontmatter extraction into a key/value map, via `serde_yaml`.
use vstd::prelude::*;
use std::collections::HashMap;
use crate::errors::EditorError;
use crate::format::{split_frontmatter, split_frontmatter_spec};
use crate::text::{chars_of, string_from_chars, trim, trim_slice};

verus! {

/// A JSON value as `serde_json` represents it, carried as it is.
#[verifier::external_type_specification]
#[verifier::external_body]
pub struct ExJsonValue(serde_json::Value);

/// The root of a converted document: a mapping, null, or anything else.
pub enum JsonRoot {
    Object(HashMap<String, serde_json::Value>),
    Null,
    Other,
}

/// The kind of the root of a YAML document.
pub enum RootKind {
    Mapping,
    Null,
    Other,
}

/// The message `serde_yaml::from_str::<serde_yaml::Value>` fails with on a
/// text, or `None` when it parses.
pub uninterp spec fn yaml_parse_error(yaml: Seq<char>) -> Option<Seq<char>>;

/// The message `serde_json::to_value` fails with on the parsed document of a
/// text, or `None` when it converts.
pub uninterp spec fn yaml_conversion_error(yaml: Seq<char>) -> Option<Seq<char>>;

/// The kind of root of the JSON value that the parsed document of a text
/// converts to.
pub uninterp spec fn yaml_root_kind(yaml: Seq<char>) -> RootKind;

/// The entries of the mapping at the root of the parsed and converted
/// document of a text, when the root is a mapping: each key with its value
/// converted to JSON.
pub uninterp spec fn yaml_mapping_of(yaml: Seq<char>) -> Map<String, serde_json::Value>;

/// Parses YAML with `serde_yaml::from_str::<serde_yaml::Value>`, converts
/// the document with `serde_json::to_value`, and tells the variants of the
/// resulting root apart, moving a mapping's entries into a `HashMap`.  An
/// error of either step is turned into its displayed message.  The contract
/// names each outcome over the text, a mapping's entries included.
#[verifier::external_body]
fn yaml_root(yaml: &str) -> (r: Result<JsonRoot, String>)
    ensures
        match yaml_parse_error(yaml@) {
            Some(msg) => r matches Err(e) && e@ == msg,
            None => match yaml_conversion_error(yaml@) {
                Some(msg) => r matches Err(e) && e@ == msg,
                None => match yaml_root_kind(yaml@) {
                    RootKind::Mapping => r matches Ok(JsonRoot::Object(m)) && m@
                        == yaml_mapping_of(yaml@),
                    RootKind::Null => r matches Ok(JsonRoot::Null),
                    RootKind::Other => r matches Ok(JsonRoot::Other),
                },
            },
        },
{
    let doc = serde_yaml::from_str::<serde_yaml::Value>(yaml).map_err(|e| e.to_string())?;
    let json = serde_json::to_value(&doc).map_err(|e| e.to_string())?;
    Ok(match json {
        serde_json::Value::Object(map) => JsonRoot::Object(map.into_iter().collect()),
        serde_json::Value::Null => JsonRoot::Null,
        _ => JsonRoot::Other,
    })
}

/// `frontmatter root must be a YAML mapping`
pub open spec fn not_a_mapping() -> Seq<char> {
    "frontmatter root must be a YAML mapping"@
}

/// The frontmatter a parsed YAML document gives: a mapping gives its
/// key/value map, null an empty map; any other root is refused.
///
/// # Errors
/// Returns [`EditorError::MalformedFrontmatter`] when the root is neither a
/// mapping nor null.
pub fn frontmatter_from_root(root: JsonRoot) -> (r: Result<
    Option<HashMap<String, serde_json::Value>>,
    EditorError,
>)
    ensures
        match root {
            JsonRoot::Object(m) => r matches Ok(Some(x)) && x@ == m@,
            JsonRoot::Null => r matches Ok(Some(x)) && x@ == Map::<String, serde_json::Value>::empty(),
            JsonRoot::Other => r matches Err(EditorError::MalformedFrontmatter { reason })
                && reason@ == not_a_mapping(),
        },
{
    match root {
        JsonRoot::Object(map) => Ok(Some(map)),
        JsonRoot::Null => Ok(Some(HashMap::new())),
        JsonRoot::Other => Err(
            EditorError::MalformedFrontmatter {
                reason: string_from_chars(chars_of("frontmatter root must be a YAML mapping")),
            },
        ),
    }
}

/// Extract YAML frontmatter from a raw Markdown string.
///
/// Returns `Ok(None)` if no frontmatter block is present, and an empty map
/// for a blank block.  Otherwise the block is parsed as YAML: a mapping
/// becomes its key/value map (values converted to JSON) and null an empty
/// map.
///
/// # Errors
/// Returns [`EditorError::MalformedFrontmatter`] if the YAML block is invalid
/// or cannot be converted (with the message of the failing step), or its
/// root is neither a mapping nor null.
pub fn extract(raw: &str) -> (r: Result<Option<HashMap<String, serde_json::Value>>, EditorError>)
    ensures
        match split_frontmatter_spec(raw@).0 {
            None => r matches Ok(None),
            Some(y) => if trim(y).len() == 0 {
                r matches Ok(Some(m)) && m@ == Map::<String, serde_json::Value>::empty()
            } else {
                match yaml_parse_error(y) {
                    Some(msg) => r matches Err(EditorError::MalformedFrontmatter { reason })
                        && reason@ == msg,
                    None => match yaml_conversion_error(y) {
                        Some(msg) => r matches Err(EditorError::MalformedFrontmatter { reason })
                            && reason@ == msg,
                        None => match yaml_root_kind(y) {
                            RootKind::Mapping => r matches Ok(Some(m)) && m@
                                == yaml_mapping_of(y),
                            RootKind::Null => r matches Ok(Some(m)) && m@ == Map::<
                                String,
                                serde_json::Value,
                            >::empty(),
                            RootKind::Other => r matches Err(
                                EditorError::MalformedFrontmatter { reason },
                            ) && reason@ == not_a_mapping(),
                        },
                    },
                }
            },
        },
{
    let (yaml_opt, _body) = split_frontmatter(raw);
    let yaml = match yaml_opt {
        Some(y) => y,
        None => return Ok(None),
    };
    let yc = chars_of(yaml);
    if trim_slice(yc.as_slice()).len() == 0 {
        return Ok(Some(HashMap::new()));
    }
    match yaml_root(yaml) {
        Ok(root) => frontmatter_from_root(root),
        Err(reason) => Err(EditorError::MalformedFrontmatter { reason }),
    }
}

} // verus!

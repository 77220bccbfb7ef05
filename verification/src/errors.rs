//! Error types of the engine and the messages they display.
use vstd::prelude::*;
use crate::text::{chars_of, push_all, string_from_chars};

verus! {

/// The serialization error of `serde_json`, carried as it is.
#[verifier::external_type_specification]
#[verifier::external_body]
pub struct ExJsonError(serde_json::Error);

/// The text `serde_json` displays for an error: its message, with the line
/// and column where it arose when there is one.
pub uninterp spec fn json_error_message(e: serde_json::Error) -> Seq<char>;

/// The message `serde_json` displays for an error (its `Display`), named by
/// `json_error_message`.
#[verifier::external_body]
fn json_error_text(e: &serde_json::Error) -> (r: String)
    ensures
        r@ == json_error_message(*e),
{
    e.to_string()
}

/// `a` followed by `b`.
pub fn concat(a: &str, b: &str) -> (r: String)
    ensures
        r@ == a@ + b@,
{
    let mut v = chars_of(a);
    let w = chars_of(b);
    push_all(&mut v, w.as_slice());
    string_from_chars(v)
}

/// `a`, then `b`, then `c`.
pub fn concat3(a: &str, b: &str, c: &str) -> (r: String)
    ensures
        r@ == a@ + b@ + c@,
{
    let mut v = chars_of(a);
    let w = chars_of(b);
    let x = chars_of(c);
    push_all(&mut v, w.as_slice());
    push_all(&mut v, x.as_slice());
    string_from_chars(v)
}

/// Top-level error type of the core model.
#[derive(Debug)]
pub enum CoreError {
    /// An ID could not be parsed.
    InvalidId(String),
    /// A required field was absent from a note's frontmatter.
    MissingFrontmatterField { field: String },
    /// JSON (de)serialization failure.
    Serialization(serde_json::Error),
}

impl From<serde_json::Error> for CoreError {
    /// A JSON failure becomes a serialization error.
    fn from(e: serde_json::Error) -> (r: Self) {
        CoreError::Serialization(e)
    }
}

impl vstd::std_specs::convert::FromSpecImpl<serde_json::Error> for CoreError {
    open spec fn obeys_from_spec() -> bool {
        true
    }

    open spec fn from_spec(v: serde_json::Error) -> Self {
        CoreError::Serialization(v)
    }
}

/// Whether `m` is the message of the core error `e`: its prefix followed by
/// the id, the field, or the text `serde_json` displays for the error.
pub open spec fn is_core_message(e: CoreError, m: Seq<char>) -> bool {
    match e {
        CoreError::InvalidId(s) => m == e.message_prefix() + s@,
        CoreError::MissingFrontmatterField { field } => m == e.message_prefix() + field@,
        CoreError::Serialization(j) => m == e.message_prefix() + json_error_message(j),
    }
}

impl CoreError {
    /// The fixed text a message of this error starts with.
    pub open spec fn message_prefix(&self) -> Seq<char> {
        match self {
            CoreError::InvalidId(_) => "invalid id: "@,
            CoreError::MissingFrontmatterField { .. } => "missing frontmatter field: "@,
            CoreError::Serialization(_) => "serialization error: "@,
        }
    }

    /// The message of the error: `invalid id: {0}`,
    /// `missing frontmatter field: {field}` or `serialization error: {0}`.
    pub fn to_string(&self) -> (r: String)
        ensures
            is_core_message(*self, r@),
    {
        match self {
            CoreError::InvalidId(s) => concat("invalid id: ", s.as_str()),
            CoreError::MissingFrontmatterField { field } => concat(
                "missing frontmatter field: ",
                field.as_str(),
            ),
            CoreError::Serialization(e) => {
                let detail = json_error_text(e);
                concat("serialization error: ", detail.as_str())
            },
        }
    }
}

/// Top-level error type of the editor.
#[derive(Debug)]
pub enum EditorError {
    /// The frontmatter block is present but malformed YAML.
    MalformedFrontmatter { reason: String },
    /// A wikilink target references a note that does not exist.
    BrokenWikilink { target: String },
    /// Core error propagated from the core model.
    Core(CoreError),
}

impl From<CoreError> for EditorError {
    fn from(e: CoreError) -> (r: Self) {
        EditorError::Core(e)
    }
}

impl vstd::std_specs::convert::FromSpecImpl<CoreError> for EditorError {
    open spec fn obeys_from_spec() -> bool {
        true
    }

    open spec fn from_spec(v: CoreError) -> Self {
        EditorError::Core(v)
    }
}

impl EditorError {
    /// The message of the error: `malformed frontmatter: {reason}`,
    /// `broken wikilink: [[{target}]] not found in vault`, or
    /// `core error: ` followed by the core error's message.
    pub fn to_string(&self) -> (r: String)
        ensures
            match self {
                EditorError::MalformedFrontmatter { reason } => r@ == "malformed frontmatter: "@
                    + reason@,
                EditorError::BrokenWikilink { target } => r@ == "broken wikilink: [["@ + target@
                    + "]] not found in vault"@,
                EditorError::Core(e) => r@.len() >= "core error: "@.len() && r@.take(
                    "core error: "@.len() as int,
                ) == "core error: "@ && is_core_message(*e, r@.skip("core error: "@.len() as int)),
            },
    {
        match self {
            EditorError::MalformedFrontmatter { reason } => concat(
                "malformed frontmatter: ",
                reason.as_str(),
            ),
            EditorError::BrokenWikilink { target } => concat3(
                "broken wikilink: [[",
                target.as_str(),
                "]] not found in vault",
            ),
            EditorError::Core(e) => {
                let inner = e.to_string();
                let r = concat("core error: ", inner.as_str());
                assert(r@.take("core error: "@.len() as int) =~= "core error: "@);
                assert(r@.skip("core error: "@.len() as int) =~= inner@);
                r
            },
        }
    }
}

/// Errors that can occur during GPU initialization.
#[derive(Debug, Clone)]
pub enum GpuInitError {
    /// Failed to create the wgpu surface.
    Surface(String),
    /// No compatible GPU adapter found.
    NoAdapter,
    /// Failed to create the GPU device.
    Device(String),
}

impl GpuInitError {
    /// The message of the error.
    pub fn to_string(&self) -> (r: String)
        ensures
            match self {
                GpuInitError::Surface(e) => r@ == "GPU surface creation failed: "@ + e@,
                GpuInitError::NoAdapter => r@ == "No compatible GPU adapter found"@,
                GpuInitError::Device(e) => r@ == "GPU device creation failed: "@ + e@,
            },
    {
        match self {
            GpuInitError::Surface(e) => concat("GPU surface creation failed: ", e.as_str()),
            GpuInitError::NoAdapter => string_from_chars(chars_of("No compatible GPU adapter found")),
            GpuInitError::Device(e) => concat("GPU device creation failed: ", e.as_str()),
        }
    }
}

} // verus!

use forgexalith::editor_frontmatter::{frontmatter_from_root, JsonRoot};
use forgexalith::errors::EditorError;
use std::collections::HashMap;

#[test]
fn frontmatter_root_mapping_null_and_other() {
    let mut m = HashMap::new();
    m.insert("title".to_string(), serde_json::Value::String("T".to_string()));
    let r = frontmatter_from_root(JsonRoot::Object(m.clone())).unwrap().unwrap();
    assert_eq!(r, m);
    let r = frontmatter_from_root(JsonRoot::Null).unwrap().unwrap();
    assert!(r.is_empty());
    match frontmatter_from_root(JsonRoot::Other) {
        Err(EditorError::MalformedFrontmatter { reason }) => {
            assert_eq!(reason, "frontmatter root must be a YAML mapping")
        }
        _ => panic!("expected MalformedFrontmatter"),
    }
}

#[test]
fn frontmatter_extract_refuses_list_root() {
    match forgexalith::editor_frontmatter::extract("---\n- a\n- b\n---\nBody") {
        Err(EditorError::MalformedFrontmatter { reason }) => {
            assert_eq!(reason, "frontmatter root must be a YAML mapping")
        }
        _ => panic!("expected MalformedFrontmatter"),
    }
    let blank = forgexalith::editor_frontmatter::extract("---\n   \n---\nBody").unwrap().unwrap();
    assert!(blank.is_empty());
    let null_root = forgexalith::editor_frontmatter::extract("---\n~\n---\nBody").unwrap().unwrap();
    assert!(null_root.is_empty());
}

use forgexalith::errors::CoreError;
use forgexalith::linked::{is_hub, link_degree, linked_notes, links_between, HUB_THRESHOLD};
use forgexalith::links::push_hyperlinks;
use forgexalith::link::Link;
use forgexalith::parser::parse;
use forgexalith::sidebar::{normalize_watched_path, reload_on_change};
use forgexalith::tabs::TabManager;

fn pair(a: &str, b: &str) -> (String, String) {
    (a.to_string(), b.to_string())
}

#[test]
fn watched_path_loses_extended_prefix() {
    assert_eq!(normalize_watched_path(r"\\?\C:\vault\a.md"), r"C:\vault\a.md");
    assert_eq!(normalize_watched_path(r"C:\vault\a.md"), r"C:\vault\a.md");
    assert_eq!(normalize_watched_path("/home/v/a.md"), "/home/v/a.md");
    assert_eq!(normalize_watched_path(r"\\?"), r"\\?");
}

#[test]
fn reload_only_current_unmodified_note() {
    let mut tm = TabManager::new();
    tm.open(r"C:\v\a.md", "a.md", "old");
    let current = Some(r"C:\v\a.md".to_string());
    assert_eq!(reload_on_change(&current, r"\\?\C:\v\a.md", &tm), Some(r"C:\v\a.md".to_string()));
    assert_eq!(reload_on_change(&current, r"C:\v\b.md", &tm), None);
    assert_eq!(reload_on_change(&None, r"C:\v\a.md", &tm), None);
    tm.update_active_content("edited".to_string());
    assert_eq!(reload_on_change(&current, r"C:\v\a.md", &tm), None);
    tm.mark_active_saved("edited".to_string());
    assert_eq!(reload_on_change(&current, r"C:\v\a.md", &tm), Some(r"C:\v\a.md".to_string()));
}

#[test]
fn linked_notes_first_occurrence_order() {
    let edges = vec![pair("b", "a"), pair("a", "c"), pair("c", "b"), pair("d", "d")];
    assert_eq!(linked_notes(&edges), vec!["b", "a", "c", "d"]);
    assert!(linked_notes(&vec![]).is_empty());
}

#[test]
fn link_degrees_count_ends() {
    let edges = vec![pair("b", "a"), pair("a", "c"), pair("c", "b"), pair("d", "d")];
    assert_eq!(link_degree(&edges, &"a".to_string()), 2);
    assert_eq!(link_degree(&edges, &"d".to_string()), 2);
    assert_eq!(link_degree(&edges, &"z".to_string()), 0);
    assert!(!is_hub(4));
    assert!(is_hub(HUB_THRESHOLD));
}

#[test]
fn links_between_linked_notes_keeps_all() {
    let edges = vec![pair("b", "a"), pair("a", "c"), pair("c", "b")];
    let nodes = linked_notes(&edges);
    assert_eq!(links_between(&edges, &nodes), edges);
    let some = vec!["a".to_string(), "b".to_string()];
    assert_eq!(links_between(&edges, &some), vec![pair("b", "a")]);
}

#[test]
fn hyperlinks_from_parse_events() {
    let events = parse("A [site](https://example.com \"T\") and [x](u)");
    let mut links = vec![Link::Wikilink { target: "W".to_string(), alias: None }];
    push_hyperlinks(&events, &mut links);
    assert_eq!(
        links,
        vec![
            Link::Wikilink { target: "W".to_string(), alias: None },
            Link::Hyperlink { url: "https://example.com".to_string(), title: Some("T".to_string()) },
            Link::Hyperlink { url: "u".to_string(), title: None },
        ]
    );
}

#[test]
fn serialization_message_carries_detail() {
    let e = serde_json::from_str::<serde_json::Value>("{").unwrap_err();
    let detail = e.to_string();
    let c = CoreError::Serialization(e);
    assert_eq!(c.to_string(), format!("serialization error: {detail}"));
}

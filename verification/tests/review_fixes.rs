use forgexalith::autosave::{autosave_step, has_unsaved, preview_source, AutoSaveState, EditorEvent, SaveAction};
use forgexalith::errors::CoreError;
use forgexalith::frontmatter::{parse_yaml_list, parse_yaml_scalar};
use forgexalith::tabs::TabManager;
use forgexalith::tree::{drop_decision, DragPayload, DropDecision};
use forgexalith::wikilink::{extract_wikilink_at_cursor, is_external_file};
use forgexalith::link::{Link, SimpleWikilinkExtractor, WikilinkExtractor};
use forgexalith::links::{extract_links_from_str, PulldownWikilinkExtractor};
use forgexalith::format::split_frontmatter;

#[test]
fn yaml_scalar_trims_before_unquoting() {
    assert_eq!(parse_yaml_scalar("title: \"My Title\" ", "title"), Some("My Title".to_string()));
    assert_eq!(parse_yaml_scalar("title: 'Quoted'  ", "title"), Some("Quoted".to_string()));
    assert_eq!(parse_yaml_scalar("title: \"\" ", "title"), None);
}

#[test]
fn yaml_block_items_trim_before_unquoting() {
    assert_eq!(parse_yaml_list("tags:\n  - \"Tag\" ", "tags"), vec!["tag".to_string()]);
    assert_eq!(parse_yaml_list("tags:\n- 'Other'  \n", "tags"), vec!["other".to_string()]);
}

#[test]
fn external_targets_need_an_extension() {
    assert!(!is_external_file("pdf"));
    assert!(!is_external_file("HTML"));
    assert!(!is_external_file("png#section"));
    assert!(is_external_file("doc.pdf"));
    assert!(is_external_file("Page.HTML#top"));
}

fn state(version: u32, saved: &str) -> AutoSaveState {
    AutoSaveState { version, saved: saved.to_string() }
}

#[test]
fn autosave_debounce_and_saves() {
    let s = state(0, "old");
    let (s, a) = autosave_step(s, EditorEvent::Edited { text: "new".into(), auto_save: true, delay_ms: 500 });
    let v1 = match a {
        SaveAction::Schedule { version, delay_ms, text } => {
            assert_eq!((delay_ms, text.as_str()), (500, "new"));
            version
        }
        _ => panic!("expected a scheduled save"),
    };
    assert_eq!(v1, 1);
    let (s, a) = autosave_step(s, EditorEvent::Edited { text: "newer".into(), auto_save: true, delay_ms: 500 });
    assert!(matches!(a, SaveAction::Schedule { version: 2, .. }));
    let (s, a) = autosave_step(s, EditorEvent::TimerFired { version: v1, text: "new".into() });
    assert!(matches!(a, SaveAction::Nothing));
    let (s, a) = autosave_step(s, EditorEvent::TimerFired { version: 2, text: "newer".into() });
    match a {
        SaveAction::Save { text } => assert_eq!(text, "newer"),
        _ => panic!("expected a save"),
    }
    assert!(has_unsaved(&s, &"newer".to_string()));
    let (s, _) = autosave_step(s, EditorEvent::SaveSucceeded { text: "newer".into() });
    assert!(!has_unsaved(&s, &"newer".to_string()));
    let (s, a) = autosave_step(s, EditorEvent::SaveRequested { text: "newer".into() });
    assert!(matches!(a, SaveAction::Nothing));
    let (s, a) = autosave_step(s, EditorEvent::Edited { text: "x".into(), auto_save: false, delay_ms: 500 });
    assert!(matches!(a, SaveAction::Nothing));
    assert_eq!(s.version, 2);
    let (s, a) = autosave_step(s, EditorEvent::NoteOpened { body: "other note".into() });
    assert!(matches!(a, SaveAction::Nothing));
    assert_eq!((s.version, s.saved.as_str()), (102, "other note"));
    let (s, a) = autosave_step(s, EditorEvent::SaveFailed);
    assert!(matches!(a, SaveAction::Nothing));
    let (_, a) = autosave_step(s, EditorEvent::SaveRequested { text: "changed".into() });
    assert!(matches!(a, SaveAction::Save { .. }));
    let (s, _) = autosave_step(state(u32::MAX, ""), EditorEvent::Edited { text: "a".into(), auto_save: true, delay_ms: 1 });
    assert_eq!(s.version, 0);
}

#[test]
fn autosave_preview_source() {
    assert_eq!(preview_source(&"".to_string(), &"saved".to_string()), "saved");
    assert_eq!(preview_source(&"edit".to_string(), &"saved".to_string()), "edit");
    assert_eq!(preview_source(&"".to_string(), &"".to_string()), "");
}

#[test]
fn tabs_open_gives_fresh_ids() {
    let mut tm = TabManager::new();
    let a = tm.open("/v/a.md", "a.md", "");
    let b = tm.open("/v/b.md", "b.md", "");
    let c = tm.open("/v/c.md", "c.md", "");
    assert!(a != b && b != c && a != c);
}

#[test]
fn tree_drop_decisions() {
    let folder = DragPayload { path: "a/b".to_string(), is_folder: true };
    let file = DragPayload { path: "a/b/n.md".to_string(), is_folder: false };
    assert_eq!(drop_decision(&folder, "a"), DropDecision::Ignore);
    assert_eq!(drop_decision(&folder, "a/b"), DropDecision::IntoItself);
    assert_eq!(drop_decision(&folder, "a/b/c"), DropDecision::IntoItself);
    assert_eq!(drop_decision(&folder, "a/bc"), DropDecision::Move);
    assert_eq!(drop_decision(&file, "a/b"), DropDecision::Ignore);
    assert_eq!(drop_decision(&file, "a/b/c"), DropDecision::Move);
    assert_eq!(drop_decision(&DragPayload { path: "n.md".to_string(), is_folder: false }, ""), DropDecision::Ignore);
}

#[test]
fn core_error_from_json_error() {
    let e = serde_json::from_str::<serde_json::Value>("{").unwrap_err();
    let c: CoreError = e.into();
    assert!(matches!(c, CoreError::Serialization(_)));
    assert!(c.to_string().starts_with("serialization error: "));
}

#[test]
fn pulldown_default_and_new_agree() {
    let text = "See [[Alpha|a]] and [site](https://example.com).";
    let a = PulldownWikilinkExtractor::new().extract(text);
    let b = PulldownWikilinkExtractor::default().extract(text);
    assert_eq!(a, b);
    assert_eq!(a, extract_links_from_str(text));
}

#[test]
fn simple_scan_at_most_one_link_per_opening() {
    let ex = SimpleWikilinkExtractor;
    assert_eq!(ex.extract("[[[[a]]"), vec![Link::Wikilink { target: "[[a".to_string(), alias: None }]);
    assert!(ex.extract("broken [[no-close").is_empty());
    assert!(ex.extract("closing only ]] here").is_empty());
    assert_eq!(ex.extract("[[a]] [[b]] [[c").len(), 2);
}

#[test]
fn cursor_text_follows_an_opening() {
    let text = "x [[Note|alias]] y";
    assert_eq!(extract_wikilink_at_cursor(text, 6), Some("Note".to_string()));
    assert_eq!(extract_wikilink_at_cursor(text, 1), None);
    assert_eq!(extract_wikilink_at_cursor("[[a]] b", 6), None);
}

#[test]
fn split_decomposes_document() {
    let raw = "  ---\n\ntitle: T\n---\n\nBody";
    let (fm, body) = split_frontmatter(raw);
    assert_eq!(fm, Some("title: T"));
    assert_eq!(body, "Body");
    assert_eq!(raw.trim_start(), format!("---\n\n{}\n---\n\n{}", fm.unwrap(), body));
}

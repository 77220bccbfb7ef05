use forgexalith::tabs::TabManager;

/// Opening a file makes a tab with its title and activates it.
#[test]
fn tabs_open_creates_and_activates() {
    let mut tm = TabManager::new();
    let id = tm.open("/vault/notes/Idea.md", "notes/Idea.md", "# Idea");
    assert_eq!(tm.tabs.len(), 1);
    assert_eq!(tm.active_tab_id, Some(id));
    let t = tm.active_tab().unwrap();
    assert_eq!(t.title, "Idea");
    assert_eq!(t.content, "# Idea");
    assert!(t.is_markdown);
    assert!(!t.modified);
}

/// Opening the same file again switches to it and refreshes unmodified content.
#[test]
fn tabs_open_same_file_switches() {
    let mut tm = TabManager::new();
    let a = tm.open("/v/a.md", "a.md", "one");
    let b = tm.open("/v/b.txt", "b.txt", "two");
    assert_ne!(a, b);
    assert_eq!(tm.active_tab_id, Some(b));
    let again = tm.open("/v/a.md", "a.md", "one, changed on disk");
    assert_eq!(again, a);
    assert_eq!(tm.tabs.len(), 2);
    assert_eq!(tm.active_tab().unwrap().content, "one, changed on disk");
    assert!(!tm.tabs[1].is_markdown);
}

/// A modified tab keeps its edits when its file is opened again.
#[test]
fn tabs_open_keeps_unsaved_edits() {
    let mut tm = TabManager::new();
    tm.open("/v/a.md", "a.md", "disk");
    tm.update_active_content("edited".to_string());
    assert!(tm.active_tab().unwrap().modified);
    tm.open("/v/a.md", "a.md", "disk again");
    assert_eq!(tm.active_tab().unwrap().content, "edited");
    tm.mark_active_saved("saved".to_string());
    let t = tm.active_tab_untracked().unwrap();
    assert_eq!(t.content, "saved");
    assert!(!t.modified);
}

/// Closing the active tab activates its right neighbour, else its left one.
#[test]
fn tabs_close_activates_neighbour() {
    let mut tm = TabManager::new();
    let a = tm.open_with_id(1, "/v/a.md", "a.md", "");
    let b = tm.open_with_id(2, "/v/b.md", "b.md", "");
    let c = tm.open_with_id(3, "/v/c.md", "c.md", "");
    tm.activate(b);
    tm.close(b);
    assert_eq!(tm.active_tab_id, Some(c));
    tm.close(c);
    assert_eq!(tm.active_tab_id, Some(a));
    tm.close(a);
    assert_eq!(tm.active_tab_id, None);
    assert!(tm.tabs.is_empty());
}

/// Closing an inactive or unknown tab leaves the active one.
#[test]
fn tabs_close_inactive_or_unknown() {
    let mut tm = TabManager::new();
    let a = tm.open_with_id(10, "/v/a.md", "a.md", "");
    let b = tm.open_with_id(20, "/v/b.md", "b.md", "");
    tm.close(a);
    assert_eq!(tm.active_tab_id, Some(b));
    tm.close(99);
    assert_eq!(tm.tabs.len(), 1);
    tm.activate(99);
    assert_eq!(tm.active_tab_id, Some(b));
}

/// Next and previous wrap around; with one tab nothing changes.
#[test]
fn tabs_cycle_wraps() {
    let mut tm = TabManager::new();
    let a = tm.open_with_id(1, "/v/a.md", "a.md", "");
    tm.next_tab();
    assert_eq!(tm.active_tab_id, Some(a));
    let b = tm.open_with_id(2, "/v/b.md", "b.md", "");
    let c = tm.open_with_id(3, "/v/c.md", "c.md", "");
    tm.next_tab();
    assert_eq!(tm.active_tab_id, Some(a));
    tm.prev_tab();
    assert_eq!(tm.active_tab_id, Some(c));
    tm.prev_tab();
    assert_eq!(tm.active_tab_id, Some(b));
}

/// Closing the others keeps only the given tab, active.
#[test]
fn tabs_close_others_keeps_one() {
    let mut tm = TabManager::new();
    tm.open_with_id(1, "/v/a.md", "a.md", "");
    let b = tm.open_with_id(2, "/v/b.md", "b.md", "");
    tm.open_with_id(3, "/v/c.md", "c.md", "");
    tm.close_others(b);
    assert_eq!(tm.tabs.len(), 1);
    assert_eq!(tm.tabs[0].id, b);
    assert_eq!(tm.active_tab_id, Some(b));
}

/// Titles drop folders (either separator) and a trailing `.md`.
#[test]
fn tabs_make_title() {
    assert_eq!(TabManager::make_title("a/b/Note.md"), "Note");
    assert_eq!(TabManager::make_title("a\\b\\Note.md"), "Note");
    assert_eq!(TabManager::make_title("data.json"), "data.json");
    assert_eq!(TabManager::make_title("Readme.MD"), "Readme.MD");
}

/// A tab with unsaved changes shows a dot after its title.
#[test]
fn tabs_label_marks_modified() {
    assert_eq!(forgexalith::tabs::tab_label("Note", true), "Note \u{2022}");
    assert_eq!(forgexalith::tabs::tab_label("Note", false), "Note");
}

use forgexalith::palette::{filter_notes, select_next, select_prev};
use forgexalith::sidebar::{
    is_hidden_path, is_text_file, note_display_name, resolve_note_path, unsupported_file_text,
    visible_paths,
};

#[test]
fn sidebar_text_files() {
    assert!(is_text_file("notes/a.md"));
    assert!(is_text_file("Src/MAIN.RS"));
    assert!(is_text_file(".gitignore"));
    assert!(is_text_file("x/server.log"));
    assert!(is_text_file("cfg.ini"));
    assert!(!is_text_file("image.png"));
    assert!(!is_text_file("archive.tar.gz"));
    assert!(!is_text_file("md"));
}

#[test]
fn sidebar_resolve_path() {
    assert_eq!(resolve_note_path("/vault", "a/b.md"), "/vault/a/b.md");
    assert_eq!(resolve_note_path("C:\\vault", "b.md"), "C:\\vault\\b.md");
    assert_eq!(resolve_note_path("/vault", "/abs/b.md"), "/abs/b.md");
    assert_eq!(resolve_note_path("/vault", "D:\\x.md"), "D:\\x.md");
    assert_eq!(resolve_note_path("/vault", "\\x.md"), "\\x.md");
}

#[test]
fn sidebar_unsupported_text() {
    assert_eq!(
        unsupported_file_text("pics/cat.png"),
        "# cat.png\n\n> Binary or unsupported file format (`.png`)\n>\n> This file cannot be previewed in the editor yet.\n> Path: `pics/cat.png`"
    );
    assert_eq!(
        unsupported_file_text("LICENSE"),
        "# LICENSE\n\n> Binary or unsupported file format (`.LICENSE`)\n>\n> This file cannot be previewed in the editor yet.\n> Path: `LICENSE`"
    );
}

#[test]
fn sidebar_display_name() {
    assert_eq!(note_display_name("a/b/Note.md", false), "Note");
    assert_eq!(note_display_name("a/b/Note.md", true), "Note.md");
    assert_eq!(note_display_name("a/b/data.csv", false), "data.csv");
}

#[test]
fn sidebar_hidden_paths() {
    assert!(is_hidden_path(".obsidian/app.json"));
    assert!(is_hidden_path("notes/.trash/x.md"));
    assert!(!is_hidden_path("notes/x.md"));
    let paths = vec!["a.md".to_string(), ".git/HEAD".to_string(), "b/c.md".to_string()];
    assert_eq!(visible_paths(&paths, false), vec!["a.md".to_string(), "b/c.md".to_string()]);
    assert_eq!(visible_paths(&paths, true), paths);
}

#[test]
fn palette_filter_by_title() {
    let notes: Vec<String> =
        vec!["Projects/Alpha.md", "beta.md", "alphabet/zeta.md", "Gamma ALPHA.md"]
            .into_iter()
            .map(String::from)
            .collect();
    assert_eq!(
        filter_notes(&notes, "alpha"),
        vec!["Projects/Alpha.md".to_string(), "Gamma ALPHA.md".to_string()]
    );
    assert_eq!(filter_notes(&notes, ""), notes);
    assert!(filter_notes(&notes, "nothing").is_empty());
}

#[test]
fn palette_at_most_ten() {
    let notes: Vec<String> = (0..15).map(|i| format!("n{}.md", i)).collect();
    let r = filter_notes(&notes, "");
    assert_eq!(r.len(), 10);
    assert_eq!(r[9], "n9.md");
    let r = filter_notes(&notes, "N1");
    assert_eq!(r.len(), 6);
}

#[test]
fn palette_selection_moves() {
    assert_eq!(select_next(0, 3), 1);
    assert_eq!(select_next(2, 3), 2);
    assert_eq!(select_next(0, 0), 0);
    assert_eq!(select_prev(0), 0);
    assert_eq!(select_prev(4), 3);
}

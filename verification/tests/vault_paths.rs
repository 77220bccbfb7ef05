use forgexalith::errors::GpuInitError;
use forgexalith::markdown::md_to_html;
use forgexalith::paths::{
    abs_path, extract_parent, file_name_from_path, note_title, split_path, validate_path_helper,
};
use forgexalith::tree::{build_level, filter_folder_paths, filter_paths_for_folder, TreeItem};

#[test]
fn paths_split_on_both_separators() {
    assert_eq!(split_path("a/b\\c"), vec!["a", "b", "c"]);
    assert_eq!(split_path("//a//b/"), vec!["a", "b"]);
    assert!(split_path("").is_empty());
    assert!(split_path("/\\").is_empty());
}

#[test]
fn paths_file_name() {
    assert_eq!(file_name_from_path("notes/daily/2026.md"), "2026.md");
    assert_eq!(file_name_from_path("C:\\vault\\x.txt"), "x.txt");
    assert_eq!(file_name_from_path("/"), "(unnamed)");
    assert_eq!(file_name_from_path(""), "(unnamed)");
}

#[test]
fn paths_parent() {
    assert_eq!(extract_parent("a/b/c.md"), "a/b");
    assert_eq!(extract_parent("a\\b\\c.md"), "a/b");
    assert_eq!(extract_parent("c.md"), "");
    assert_eq!(extract_parent("/c.md"), "");
}

#[test]
fn paths_title_and_join() {
    assert_eq!(note_title("notes/Idea.md"), "Idea");
    assert_eq!(note_title("notes\\Idea.txt"), "Idea.txt");
    assert_eq!(abs_path("/vault", "a.md"), "/vault/a.md");
    assert_eq!(abs_path("C:\\vault", "a.md"), "C:\\vault\\a.md");
}

#[test]
fn paths_validation() {
    assert_eq!(validate_path_helper("notes/a.md"), Ok(()));
    assert_eq!(validate_path_helper("a/..b/c"), Ok(()));
    assert_eq!(validate_path_helper("a/../b"), Err("path traversal not allowed".to_string()));
    assert_eq!(validate_path_helper("..\\b"), Err("path traversal not allowed".to_string()));
    assert_eq!(validate_path_helper(".."), Err("path traversal not allowed".to_string()));
    assert_eq!(validate_path_helper("a\0b"), Err("path contains null byte".to_string()));
    assert_eq!(validate_path_helper("../a\0"), Err("path contains null byte".to_string()));
}

fn strings(v: &[&str]) -> Vec<String> {
    v.iter().map(|s| s.to_string()).collect()
}

fn describe(items: &[TreeItem]) -> Vec<String> {
    items
        .iter()
        .map(|it| match it {
            TreeItem::Folder(n) => format!("D:{}", n),
            TreeItem::File(p) => format!("F:{}", p),
        })
        .collect()
}

#[test]
fn tree_level_lists_folders_then_files_sorted() {
    let paths = strings(&["b.md", "z/x.md", "a/y.md", "a.md", "a/.empty", "q/.empty"]);
    let folders = strings(&["m\\n", "a"]);
    let top = build_level(&paths, &folders, 0);
    assert_eq!(describe(&top), vec!["D:a", "D:m", "D:q", "D:z", "F:a.md", "F:b.md"]);
    let second = build_level(&paths, &folders, 1);
    assert_eq!(describe(&second), vec!["D:n", "F:a/y.md", "F:z/x.md"]);
    assert!(build_level(&paths, &folders, 5).is_empty());
}

#[test]
fn tree_filters_children_of_folder() {
    let paths = strings(&["a/x.md", "b/a/y.md", "a\\z.md", "a"]);
    assert_eq!(filter_paths_for_folder(&paths, "a", 0), strings(&["a/x.md", "a\\z.md", "a"]));
    assert_eq!(filter_paths_for_folder(&paths, "a", 1), strings(&["b/a/y.md"]));
    let folders = strings(&["a/b", "c\\a", "a"]);
    assert_eq!(filter_folder_paths(&folders, "a", 0), strings(&["a/b", "a"]));
    assert_eq!(filter_folder_paths(&folders, "a", 1), strings(&["c\\a"]));
}

#[test]
fn markdown_page_renders_and_sanitizes() {
    let html = md_to_html("# Title\n\nSee [[Other Note|other]] and **bold**.");
    assert!(html.contains("<h1>Title</h1>"));
    assert!(html.contains("<strong>bold</strong>"));
    assert!(html.contains("class=\"forge-wikilink\""));
    assert!(html.contains("data-target=\"Other Note\""));
    assert!(html.contains(">other</a>"));
    assert_ne!(html, "# Title\n\nSee [[Other Note|other]] and **bold**.");
    let unsafe_html = md_to_html("<script>alert(1)</script><img src=x onerror=alert(1)>");
    assert!(!unsafe_html.contains("<script"));
    assert!(!unsafe_html.contains("onerror"));
}

#[test]
fn gpu_init_error_messages() {
    assert_eq!(
        GpuInitError::Surface("lost".to_string()).to_string(),
        "GPU surface creation failed: lost"
    );
    assert_eq!(GpuInitError::NoAdapter.to_string(), "No compatible GPU adapter found");
    assert_eq!(
        GpuInitError::Device("oom".to_string()).to_string(),
        "GPU device creation failed: oom"
    );
}

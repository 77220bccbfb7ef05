use forgexalith::navigate::{route_wikilink, vault_relative_path, WikilinkRoute};
use forgexalith::settings::{
    default_theme, sanitize_auto_save_delay, sanitize_font_size, sanitize_theme,
};

#[test]
fn navigate_notes_are_resolved() {
    assert_eq!(route_wikilink("My Note", "/vault"), WikilinkRoute::Resolve);
    assert_eq!(route_wikilink("folder/note.md", "/vault"), WikilinkRoute::Resolve);
    assert_eq!(route_wikilink("note#Heading", "/vault"), WikilinkRoute::Resolve);
}

#[test]
fn navigate_external_files_open_in_vault() {
    assert_eq!(
        route_wikilink("docs/page.html", "/vault"),
        WikilinkRoute::OpenExternal { path: "/vault/docs/page.html".to_string() }
    );
    assert_eq!(
        route_wikilink("docs/Report.PDF#page=2", "C:\\vault"),
        WikilinkRoute::OpenExternal { path: "C:\\vault\\docs\\Report.PDF".to_string() }
    );
    assert_eq!(
        route_wikilink("a/b.png", ""),
        WikilinkRoute::OpenExternal { path: "a/b.png".to_string() }
    );
}

#[test]
fn navigate_relative_paths() {
    assert_eq!(vault_relative_path("/vault/notes/a.md", "/vault"), "notes/a.md");
    assert_eq!(vault_relative_path("C:\\vault\\\\a.md", "C:\\vault"), "a.md");
    assert_eq!(vault_relative_path("/other/a.md", "/vault"), "/other/a.md");
    assert_eq!(vault_relative_path("/vault/a.md", ""), "/vault/a.md");
}

#[test]
fn settings_are_clamped() {
    assert_eq!(sanitize_font_size(4), 8);
    assert_eq!(sanitize_font_size(14), 14);
    assert_eq!(sanitize_font_size(99), 32);
    assert_eq!(sanitize_auto_save_delay(0), 200);
    assert_eq!(sanitize_auto_save_delay(500), 500);
    assert_eq!(sanitize_auto_save_delay(u32::MAX), 10_000);
    assert_eq!(sanitize_font_size(sanitize_font_size(99)), 32);
}

#[test]
fn settings_theme_is_validated() {
    assert_eq!(sanitize_theme("light"), "light");
    assert_eq!(sanitize_theme("system"), "system");
    assert_eq!(sanitize_theme("dark"), "dark");
    assert_eq!(sanitize_theme("<script>"), "dark");
    assert_eq!(sanitize_theme("Light"), "dark");
    assert_eq!(default_theme(), "dark");
}

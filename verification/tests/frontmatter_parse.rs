use forgexalith::frontmatter::parse_frontmatter;


// ===== No frontmatter tests =====

/// Test parse_frontmatter with no frontmatter block.
#[test]
fn test_no_frontmatter() {
    let raw = "# Just a heading\nNo frontmatter here";
    let fm = parse_frontmatter(raw);
    assert!(fm.tags.is_empty());
    assert!(fm.aliases.is_empty());
    assert_eq!(fm.title, None);
    assert_eq!(fm.date, None);
}

/// Test parse_frontmatter with empty frontmatter block.
#[test]
fn test_empty_frontmatter_block() {
    let raw = "---\n---\nBody content";
    let fm = parse_frontmatter(raw);
    assert!(fm.tags.is_empty());
    assert!(fm.aliases.is_empty());
    assert_eq!(fm.title, None);
    assert_eq!(fm.date, None);
}

// ===== Tags: inline list tests =====

/// Test inline tags parsing with basic items.
#[test]
fn test_tags_inline_basic() {
    let raw = "---\ntags: [rust, testing, obsidian]\n---\nBody";
    let fm = parse_frontmatter(raw);
    assert_eq!(
        fm.tags,
        ["rust", "testing", "obsidian"]
            .iter()
            .map(|s| s.to_string())
            .collect::<Vec<_>>()
    );
}

/// Test inline tags are lowercased.
#[test]
fn test_tags_inline_lowercased() {
    let raw = "---\ntags: [Rust, TESTING, Obsidian]\n---\nBody";
    let fm = parse_frontmatter(raw);
    assert_eq!(
        fm.tags,
        ["rust", "testing", "obsidian"]
            .iter()
            .map(|s| s.to_string())
            .collect::<Vec<_>>()
    );
}

/// Test inline tags with spaces are trimmed.
#[test]
fn test_tags_inline_trimmed() {
    let raw = "---\ntags: [  rust  ,  testing  ,  obsidian  ]\n---\nBody";
    let fm = parse_frontmatter(raw);
    assert_eq!(
        fm.tags,
        ["rust", "testing", "obsidian"]
            .iter()
            .map(|s| s.to_string())
            .collect::<Vec<_>>()
    );
}

/// Test inline tags with double quotes are stripped.
#[test]
fn test_tags_inline_quoted() {
    let raw = r#"---
tags: ["rust", "testing", "obsidian"]
---
Body"#;
    let fm = parse_frontmatter(raw);
    assert_eq!(
        fm.tags,
        ["rust", "testing", "obsidian"]
            .iter()
            .map(|s| s.to_string())
            .collect::<Vec<_>>()
    );
}

/// Test inline tags with single quotes are stripped.
#[test]
fn test_tags_inline_single_quoted() {
    let raw = "---\ntags: ['rust', 'testing', 'obsidian']\n---\nBody";
    let fm = parse_frontmatter(raw);
    assert_eq!(
        fm.tags,
        ["rust", "testing", "obsidian"]
            .iter()
            .map(|s| s.to_string())
            .collect::<Vec<_>>()
    );
}

/// Test empty inline tags list.
#[test]
fn test_tags_inline_empty() {
    let raw = "---\ntags: []\n---\nBody";
    let fm = parse_frontmatter(raw);
    assert!(fm.tags.is_empty());
}

// ===== Tags: block list tests =====

/// Test block-format tags parsing.
#[test]
fn test_tags_block_basic() {
    let raw = "---\ntags:\n  - rust\n  - testing\n  - obsidian\n---\nBody";
    let fm = parse_frontmatter(raw);
    assert_eq!(
        fm.tags,
        ["rust", "testing", "obsidian"]
            .iter()
            .map(|s| s.to_string())
            .collect::<Vec<_>>()
    );
}

/// Test block-format tags with spaces and quotes.
#[test]
fn test_tags_block_with_spaces_and_quotes() {
    let raw = r#"---
tags:
  - "My Tag"
  - "Another Tag"
  -   spaced-tag
---
Body"#;
    let fm = parse_frontmatter(raw);
    assert_eq!(
        fm.tags,
        ["my tag", "another tag", "spaced-tag"]
            .iter()
            .map(|s| s.to_string())
            .collect::<Vec<_>>()
    );
}

// ===== Aliases tests =====

/// Test aliases inline parsing.
#[test]
fn test_aliases_inline() {
    let raw = "---\naliases: [alt1, alt2, alt3]\n---\nBody";
    let fm = parse_frontmatter(raw);
    assert_eq!(
        fm.aliases,
        ["alt1", "alt2", "alt3"]
            .iter()
            .map(|s| s.to_string())
            .collect::<Vec<_>>()
    );
}

/// Test aliases block parsing.
#[test]
fn test_aliases_block() {
    let raw = "---\naliases:\n  - alias1\n  - alias2\n---\nBody";
    let fm = parse_frontmatter(raw);
    assert_eq!(
        fm.aliases,
        ["alias1", "alias2"]
            .iter()
            .map(|s| s.to_string())
            .collect::<Vec<_>>()
    );
}

// ===== Title tests =====

/// Test title scalar extraction.
#[test]
fn test_title_basic() {
    let raw = "---\ntitle: My Note Title\n---\nBody";
    let fm = parse_frontmatter(raw);
    assert_eq!(fm.title, Some("My Note Title".to_string()));
}

/// Test title with quotes.
#[test]
fn test_title_quoted() {
    let raw = r#"---
title: "My Note Title"
---
Body"#;
    let fm = parse_frontmatter(raw);
    assert_eq!(fm.title, Some("My Note Title".to_string()));
}

/// Test title preserves case.
#[test]
fn test_title_case_preserved() {
    let raw = "---\ntitle: Rust ASYNC Testing\n---\nBody";
    let fm = parse_frontmatter(raw);
    assert_eq!(fm.title, Some("Rust ASYNC Testing".to_string()));
}

/// Test missing title returns None.
#[test]
fn test_title_missing() {
    let raw = "---\ntags: [rust]\n---\nBody";
    let fm = parse_frontmatter(raw);
    assert_eq!(fm.title, None);
}

// ===== Date tests =====

/// Test date field extraction.
#[test]
fn test_date_basic() {
    let raw = "---\ndate: 2026-04-16\n---\nBody";
    let fm = parse_frontmatter(raw);
    assert_eq!(fm.date, Some("2026-04-16".to_string()));
}

/// Test created field as fallback when date is absent.
#[test]
fn test_created_as_fallback() {
    let raw = "---\ncreated: 2026-04-01\n---\nBody";
    let fm = parse_frontmatter(raw);
    assert_eq!(fm.date, Some("2026-04-01".to_string()));
}

/// Test date takes precedence over created.
#[test]
fn test_date_precedence() {
    let raw = "---\ndate: 2026-04-16\ncreated: 2026-04-01\n---\nBody";
    let fm = parse_frontmatter(raw);
    assert_eq!(fm.date, Some("2026-04-16".to_string()));
}

/// Test missing both date and created returns None.
#[test]
fn test_date_and_created_missing() {
    let raw = "---\ntitle: My Note\n---\nBody";
    let fm = parse_frontmatter(raw);
    assert_eq!(fm.date, None);
}

// ===== Unicode and special characters =====

/// Test tags with unicode characters.
#[test]
fn test_tags_unicode() {
    let raw = "---\ntags: [日本語, café, ñoño]\n---\nBody";
    let fm = parse_frontmatter(raw);
    assert_eq!(fm.tags.len(), 3);
    assert!(fm.tags.contains(&"日本語".to_string()));
    assert!(fm.tags.contains(&"café".to_string()));
    assert!(fm.tags.contains(&"ñoño".to_string()));
}

/// Test tags with underscores and hyphens.
#[test]
fn test_tags_underscores_hyphens() {
    let raw = "---\ntags: [my-tag, rust_async, test-case_2]\n---\nBody";
    let fm = parse_frontmatter(raw);
    assert!(fm.tags.contains(&"my-tag".to_string()));
    assert!(fm.tags.contains(&"rust_async".to_string()));
    assert!(fm.tags.contains(&"test-case_2".to_string()));
}

// ===== Combined fields =====

/// Test full frontmatter with all fields present.
#[test]
fn test_full_frontmatter() {
    let raw = r#"---
title: Complex Note
tags: [rust, async, testing]
aliases: [alt-name, code-example]
date: 2026-04-16
---
# Heading

Some body content here.
"#;
    let fm = parse_frontmatter(raw);
    assert_eq!(fm.title, Some("Complex Note".to_string()));
    assert_eq!(fm.tags.len(), 3);
    assert_eq!(fm.aliases.len(), 2);
    assert_eq!(fm.date, Some("2026-04-16".to_string()));
}

/// Test note with only title, no tags.
#[test]
fn test_only_title() {
    let raw = "---\ntitle: Just Title\n---\nBody";
    let fm = parse_frontmatter(raw);
    assert_eq!(fm.title, Some("Just Title".to_string()));
    assert!(fm.tags.is_empty());
    assert!(fm.aliases.is_empty());
    assert_eq!(fm.date, None);
}

/// Test body content is not included in tags.
#[test]
fn test_body_not_parsed_as_tags() {
    let raw = r#"---
tags: [note]
---
# Heading with tags: [body, tags, here]
Content with - list items
  - should not be parsed
"#;
    let fm = parse_frontmatter(raw);
    assert_eq!(fm.tags, vec!["note"]);
}

/// Test mixed inline and block fields.
#[test]
fn test_mixed_inline_and_block_fields() {
    let raw = r#"---
title: Mixed Fields
tags: [inline-tag1, inline-tag2]
aliases:
  - alias1
  - alias2
date: 2026-04-16
---
Body"#;
    let fm = parse_frontmatter(raw);
    assert_eq!(fm.title, Some("Mixed Fields".to_string()));
    assert_eq!(fm.tags.len(), 2);
    assert_eq!(fm.aliases.len(), 2);
    assert_eq!(fm.date, Some("2026-04-16".to_string()));
}

/// Test frontmatter with extra metadata fields (ignored but safe).
#[test]
fn test_extra_metadata_fields_ignored() {
    let raw = r#"---
title: My Note
tags: [rust]
author: Baptiste
version: 1.0
custom_field: some_value
---
Body"#;
    let fm = parse_frontmatter(raw);
    // Extra fields are simply ignored, no error
    assert_eq!(fm.title, Some("My Note".to_string()));
    assert_eq!(fm.tags, vec!["rust"]);
}

/// Test that empty tag/alias values are filtered out.
#[test]
fn test_empty_values_filtered() {
    let raw = r#"---
tags: [rust, "", testing, '']
aliases: [alias1, , alias2]
---
Body"#;
    let fm = parse_frontmatter(raw);
    // Empty strings should be filtered out
    assert!(!fm.tags.is_empty());
    assert!(!fm.tags.contains(&String::new()));
}

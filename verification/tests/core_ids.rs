use forgexalith::ids::{NoteId, TagId};

/// Verify that NoteId::new() generates unique identifiers.
#[test]
fn test_note_id_new_generates_unique_ids() {
    let id1 = NoteId::new();
    let id2 = NoteId::new();
    let id3 = NoteId::new();

    assert_ne!(id1, id2);
    assert_ne!(id2, id3);
    assert_ne!(id1, id3);
}

/// Verify that NoteId::default() calls NoteId::new().
#[test]
fn test_note_id_default_generates_new_id() {
    let id1 = NoteId::default();
    let id2 = NoteId::default();

    assert_ne!(id1, id2);
}

/// Verify that the NoteId text form is a valid UUID string.
#[test]
fn test_note_id_display_format() {
    let id = NoteId::new();
    let display_str = id.to_string();

    // UUID v4 format: 8-4-4-4-12 hex digits with dashes
    assert_eq!(display_str.len(), 36);
    assert_eq!(display_str.matches('-').count(), 4);

    for ch in display_str.chars() {
        assert!(ch.is_ascii_hexdigit() || ch == '-');
    }
}

/// Verify that NoteId can be cloned and compared for equality.
#[test]
fn test_note_id_clone_and_equality() {
    let id1 = NoteId::new();
    let id2 = id1;

    assert_eq!(id1, id2);
}

/// Verify that TagId::new() generates unique identifiers.
#[test]
fn test_tag_id_new_generates_unique_ids() {
    let id1 = TagId::new();
    let id2 = TagId::new();
    let id3 = TagId::new();

    assert_ne!(id1, id2);
    assert_ne!(id2, id3);
    assert_ne!(id1, id3);
}

/// Verify that TagId::default() calls TagId::new().
#[test]
fn test_tag_id_default_generates_new_id() {
    let id1 = TagId::default();
    let id2 = TagId::default();

    assert_ne!(id1, id2);
}

/// Verify that the TagId text form is a valid UUID string.
#[test]
fn test_tag_id_display_format() {
    let id = TagId::new();
    let display_str = id.to_string();

    assert_eq!(display_str.len(), 36);
    assert_eq!(display_str.matches('-').count(), 4);

    for ch in display_str.chars() {
        assert!(ch.is_ascii_hexdigit() || ch == '-');
    }
}

/// Verify that TagId can be cloned and compared for equality.
#[test]
fn test_tag_id_clone_and_equality() {
    let id1 = TagId::new();
    let id2 = id1;

    assert_eq!(id1, id2);
}

/// NoteId and TagId are distinct types; two fresh ids have different text.
#[test]
fn test_note_id_and_tag_id_are_distinct_types() {
    let note_id = NoteId::new();
    let tag_id = TagId::new();

    let note_str = note_id.to_string();
    let tag_str = tag_id.to_string();

    assert_ne!(note_str, tag_str);
}

/// The text form is lowercase, hyphenated at positions 8, 13, 18 and 23,
/// and carries the version digit 4 and an RFC 4122 variant digit.
#[test]
fn note_id_text_layout_and_version_digits() {
    let s = NoteId::new().to_string();
    let cs: Vec<char> = s.chars().collect();
    for (i, c) in cs.iter().enumerate() {
        if i == 8 || i == 13 || i == 18 || i == 23 {
            assert_eq!(*c, '-');
        } else {
            assert!(c.is_ascii_digit() || ('a'..='f').contains(c));
        }
    }
    assert_eq!(cs[14], '4');
    assert!(['8', '9', 'a', 'b'].contains(&cs[19]));
}

/// Distinct ids have distinct text forms.
#[test]
fn note_id_text_identifies_the_id() {
    let a = NoteId::new();
    let b = NoteId::new();
    assert_eq!(a == b, a.to_string() == b.to_string());
    assert_eq!(a.to_string(), a.to_string());
}

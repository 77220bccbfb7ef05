use forgexalith::link::{Link, SimpleWikilinkExtractor, WikilinkExtractor};


#[test]
fn simple_extracts_single_wikilink() {
    let links = SimpleWikilinkExtractor.extract("a [[note]] b");
    assert_eq!(links.len(), 1);
    assert!(matches!(&links[0], Link::Wikilink { target, alias: None } if target == "note"));
}

#[test]
fn simple_extracts_wikilink_with_alias() {
    let links = SimpleWikilinkExtractor.extract("ref [[path/to/note|Display]]");
    match &links[0] {
        Link::Wikilink { target, alias } => {
            assert_eq!(target, "path/to/note");
            assert_eq!(alias.as_deref(), Some("Display"));
        }
        _ => panic!("expected Wikilink variant"),
    }
}

#[test]
fn simple_handles_unclosed_wikilink() {
    let links = SimpleWikilinkExtractor.extract("broken [[no-close");
    assert!(links.is_empty());
}

#[test]
fn simple_extracts_multiple() {
    let links = SimpleWikilinkExtractor.extract("[[a]] and [[b]] and [[c|C]]");
    assert_eq!(links.len(), 3);
}

#[test]
fn simple_ignores_hyperlinks() {
    let links = SimpleWikilinkExtractor.extract("[text](https://example.com)");
    assert!(links.is_empty());
}

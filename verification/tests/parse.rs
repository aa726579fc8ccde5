use kaku::document::{Block, HeadingLevel, Inline};
use kaku::parse::{parse_document, plain_text, slugify};

#[test]
fn parses_headings_links_lists_and_tables() {
    let doc = parse_document(
        r#"# Title

- [x] done
- [ ] pending

| A | B |
|---|---|
| 1 | 2 |

[docs](https://example.com)
"#,
    );

    assert_eq!(doc.headings.len(), 1);
    assert_eq!(doc.links.len(), 1);

    match &doc.blocks[1] {
        Block::List { items, .. } => {
            assert_eq!(items.len(), 2);
            assert_eq!(items[0].task, Some(true));
            assert_eq!(items[1].task, Some(false));
        }
        other => panic!("expected list, got {other:?}"),
    }
}

#[test]
fn turns_images_into_placeholders() {
    let doc = parse_document("![logo](https://example.com/logo.png)");

    match &doc.blocks[0] {
        Block::Paragraph(inlines) => {
            assert!(matches!(&inlines[0], Inline::Text(text) if text.contains("[image: logo]")));
        }
        other => panic!("expected paragraph, got {other:?}"),
    }
}

#[test]
fn heading_records_level_id_and_title() {
    let doc = parse_document("## Hello, World!\n");
    assert_eq!(doc.headings.len(), 1);
    assert_eq!(doc.headings[0].level, HeadingLevel::H2);
    assert_eq!(doc.headings[0].level.as_usize(), 2);
    assert_eq!(doc.headings[0].title, "Hello, World!");
    assert_eq!(doc.headings[0].id, "hello-world");
}

#[test]
fn links_are_numbered_in_order() {
    let doc = parse_document("[a](https://a.example) and [b](https://b.example \"B\")\n");
    assert_eq!(doc.links.len(), 2);
    assert_eq!(doc.links[0].index, 0);
    assert_eq!(doc.links[0].destination, "https://a.example");
    assert_eq!(doc.links[0].label, "a");
    assert_eq!(doc.links[1].index, 1);
    assert_eq!(doc.links[1].title, "B");
}

#[test]
fn code_blocks_keep_language_and_text() {
    let doc = parse_document("```rust\nfn main() {}\n```\n");
    match &doc.blocks[0] {
        Block::CodeBlock(fence) => {
            assert_eq!(fence.language.as_deref(), Some("rust"));
            assert_eq!(fence.code, "fn main() {}\n");
        }
        other => panic!("expected code block, got {other:?}"),
    }
}

#[test]
fn empty_source_gives_empty_document() {
    let doc = parse_document("");
    assert!(doc.blocks.is_empty());
    assert!(doc.headings.is_empty());
    assert!(doc.links.is_empty());
    assert!(doc.footnotes.is_empty());
}

#[test]
fn plain_text_flattens_emphasis() {
    let inlines = vec![
        Inline::Text("a ".to_string()),
        Inline::Strong(vec![Inline::Text("b".to_string())]),
        Inline::Code("c".to_string()),
    ];
    assert_eq!(plain_text(&inlines), "a bc");
}

#[test]
fn slugify_collapses_separators() {
    assert_eq!(slugify("Hello, World!"), "hello-world");
    assert_eq!(slugify("  A  B "), "a-b");
    assert_eq!(slugify("snake_case--name"), "snake-case-name");
    assert_eq!(slugify("ÄÖ"), "");
}

#[test]
fn tight_list_items_keep_code_and_links() {
    let doc = parse_document("- a `b` [c](u)\n");
    assert_eq!(doc.links.len(), 1);
    assert_eq!(doc.links[0].index, 0);
    assert_eq!(doc.links[0].destination, "u");
    assert_eq!(doc.links[0].label, "c");
    assert_eq!(doc.blocks.len(), 1);
    match &doc.blocks[0] {
        Block::List { items, .. } => {
            assert_eq!(items.len(), 1);
            assert_eq!(items[0].blocks.len(), 1);
            match &items[0].blocks[0] {
                Block::Paragraph(inlines) => assert_eq!(plain_text(inlines), "a b c"),
                other => panic!("expected paragraph, got {other:?}"),
            }
        }
        other => panic!("expected list, got {other:?}"),
    }
}

#[test]
fn tight_items_keep_nested_lists_apart() {
    let doc = parse_document("- *a* b\n  - c\n");
    match &doc.blocks[0] {
        Block::List { items, .. } => {
            assert_eq!(items[0].blocks.len(), 2);
            match &items[0].blocks[0] {
                Block::Paragraph(inlines) => {
                    assert!(matches!(&inlines[0], Inline::Emphasis(_)));
                    assert_eq!(plain_text(inlines), "a b");
                }
                other => panic!("expected paragraph, got {other:?}"),
            }
            assert!(matches!(&items[0].blocks[1], Block::List { .. }));
        }
        other => panic!("expected list, got {other:?}"),
    }
}

#[test]
fn slug_of_a_slug_is_itself() {
    let once = slugify("  Getting_Started -- Now ");
    assert_eq!(once, "getting-started-now");
    assert_eq!(slugify(&once), once);
    assert_eq!(slugify("a-1-b2"), "a-1-b2");
}

fn collect_links(inlines: &[Inline], found: &mut Vec<(usize, String)>) {
    for x in inlines {
        match x {
            Inline::Link { text, destination, index, .. } => {
                found.push((*index, destination.clone()));
                collect_links(text, found);
            }
            Inline::Emphasis(c) | Inline::Strong(c) | Inline::Strikethrough(c) => {
                collect_links(c, found)
            }
            _ => {}
        }
    }
}

#[test]
fn nested_links_point_at_their_records() {
    let doc = parse_document("> see *[one](u1)* and ![pic](p.png)\n\n| [two](u2) |\n|---|\n| x |\n");
    assert_eq!(doc.links.len(), 3);
    let mut found: Vec<(usize, String)> = Vec::new();
    for b in &doc.blocks {
        match b {
            Block::Quote(bs) => {
                for inner in bs {
                    if let Block::Paragraph(t) = inner {
                        collect_links(t, &mut found);
                    }
                }
            }
            Block::Table(t) => {
                for cell in &t.headers {
                    collect_links(cell, &mut found);
                }
            }
            _ => {}
        }
    }
    assert_eq!(found, vec![(0, "u1".to_string()), (2, "u2".to_string())]);
    for (i, dest) in &found {
        assert_eq!(&doc.links[*i].destination, dest);
    }
    assert_eq!(doc.links[0].label, "one");
    assert_eq!(doc.links[1].destination, "p.png");
    assert_eq!(doc.links[1].label, "pic");
    assert_eq!(doc.links[2].label, "two");
}

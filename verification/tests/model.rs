//! The document model.

use mcpg_markdown_convert::ir::sanitize_member_name;
use mcpg_markdown_convert::{Block, Document, Inline, Span, Table};

#[test]
fn sanitize_strips_traversal_and_streams() {
    assert_eq!(sanitize_member_name("../../etc/passwd"), "etc/passwd");
    assert_eq!(sanitize_member_name("/abs/path.txt"), "abs/path.txt");
    assert_eq!(sanitize_member_name("a\\b\\c.txt"), "a/b/c.txt");
    assert_eq!(sanitize_member_name("file.txt:$DATA"), "file.txt");
    assert_eq!(sanitize_member_name("../.."), "unnamed");
    assert_eq!(sanitize_member_name(""), "unnamed");
}

#[test]
fn sanitize_drops_control_characters() {
    assert_eq!(sanitize_member_name("ev\u{1b}[2Jil.txt"), "ev[2Jil.txt");
}

#[test]
fn table_width_takes_widest_row() {
    let t = Table {
        caption: None,
        header: Some(vec![Inline::text("a"), Inline::text("b")]),
        rows: vec![
            vec![Inline::text("1")],
            vec![Inline::text("1"), Inline::text("2"), Inline::text("3")],
        ],
    };
    assert_eq!(t.width(), 3);
}

#[test]
fn inline_plain_projection_walks_nesting() {
    let inline = Inline(vec![
        Span::Text("a ".into()),
        Span::Strong(Inline::text("bold")),
        Span::Link {
            text: Inline::text(" link"),
            href: "https://example.invalid".into(),
        },
    ]);
    assert_eq!(inline.to_plain(), "a bold link");
}

#[test]
fn block_count_descends_into_nesting() {
    let mut doc = Document::new();
    doc.push(Block::List {
        ordered: false,
        items: vec![vec![Block::Paragraph(Inline::text("x"))]],
    });
    // the list itself + one nested paragraph
    assert_eq!(doc.block_count(), 2);
}

//! Plain text.

use mcpg_markdown_convert::converters::text::TextConverter;
use mcpg_markdown_convert::{Block, Probe};
use mcpg_markdown_convert::{Budget, ConvertCx, Limits};
use mcpg_markdown_convert::{Converter, Document, StreamInfo};

fn convert(bytes: &[u8], info: &StreamInfo) -> Document {
    let mut b = Budget::new(Limits::default());
    let mut cx = ConvertCx::new(&mut b);
    TextConverter.convert(bytes, info, &mut cx).expect("converts")
}

fn accepts(bytes: &[u8], info: &StreamInfo) -> bool {
    TextConverter.accepts(&Probe::new(bytes), info)
}

#[test]
fn paragraphs_split_on_blank_lines_and_unwrap() {
    let doc = convert(b"one\nstill one\n\ntwo\n", &StreamInfo::new());
    assert_eq!(doc.blocks.len(), 2);
    match &doc.blocks[0] {
        Block::Paragraph(i) => assert_eq!(i.to_plain(), "one still one"),
        other => panic!("{other:?}"),
    }
}

#[test]
fn markdown_passes_through_verbatim() {
    let si = StreamInfo::new().with_filename("notes.md");
    let doc = convert(b"# Title\n\n- item\n", &si);
    assert_eq!(doc.title.as_deref(), Some("Title"));
    match &doc.blocks[0] {
        Block::Raw { markdown } => assert!(markdown.contains("- item")),
        other => panic!("markdown must not be re-escaped: {other:?}"),
    }
}

#[test]
fn binary_is_declined() {
    assert!(!accepts(&[0u8, 1, 2, 3], &StreamInfo::new()));
}

#[test]
fn formats_with_their_own_converter_are_declined() {
    for mime in ["text/html", "text/csv", "text/xml"] {
        let si = StreamInfo::new().with_mimetype(mime);
        assert!(!accepts(b"anything", &si), "should decline {mime}");
    }
}

#[test]
fn an_unlabelled_text_stream_is_accepted() {
    assert!(accepts(b"just words", &StreamInfo::new()));
}

#[test]
fn latin1_bytes_decode_via_the_declared_charset() {
    let si = StreamInfo::new().with_charset("iso-8859-1");
    let doc = convert(&[b'c', b'a', b'f', 0xE9], &si);
    assert_eq!(doc.blocks.len(), 1);
    match &doc.blocks[0] {
        Block::Paragraph(i) => assert_eq!(i.to_plain(), "café"),
        other => panic!("{other:?}"),
    }
}

#[test]
fn empty_input_yields_an_empty_document_not_an_error() {
    let doc = convert(b"   \n\n  ", &StreamInfo::new());
    assert!(doc.blocks.is_empty());
}

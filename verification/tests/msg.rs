//! Messages.

use mcpg_markdown_convert::converters::msg::{OutlookMsgConverter, PropertyKind, parse_stream_name};
use mcpg_markdown_convert::{Block, ConvertError, Probe, WarningKind};
use mcpg_markdown_convert::{Budget, ConvertCx, Limits};
use mcpg_markdown_convert::{Converter, Document, StreamInfo};
use std::io::{Cursor, Write};

fn utf16(s: &str) -> Vec<u8> {
    s.encode_utf16().flat_map(u16::to_le_bytes).collect()
}

/// Build an OLE compound file holding the given MAPI property streams.
/// `create_with`, not `create`: the latter wants a filesystem path, and
/// nothing in this crate is allowed to touch the disk.
fn msg_of(props: &[(&str, Vec<u8>)]) -> Vec<u8> {
    let mut comp = cfb::OpenOptions::new()
        .create_with(Cursor::new(Vec::new()))
        .expect("create cfb");
    for (name, body) in props {
        let path = format!("/{name}");
        let mut s = comp.create_stream(&path).expect("create stream");
        s.write_all(body).expect("write");
        s.flush().expect("flush stream");
    }
    comp.into_inner().into_inner()
}

fn convert(bytes: &[u8]) -> Result<Document, ConvertError> {
    let mut b = Budget::new(Limits::default());
    let mut cx = ConvertCx::new(&mut b);
    OutlookMsgConverter.convert(bytes, &StreamInfo::new().with_extension("msg"), &mut cx)
}

fn sample() -> Vec<u8> {
    msg_of(&[
        ("__substg1.0_0037001F", utf16("Quarterly numbers")),
        ("__substg1.0_0C1A001F", utf16("Ada <ada@example.invalid>")),
        (
            "__substg1.0_0E04001F",
            utf16("Grace <grace@example.invalid>"),
        ),
        ("__substg1.0_1000001F", utf16("First line.\n\nSecond line.")),
    ])
}

#[test]
fn the_subject_becomes_the_title() {
    let doc = convert(&sample()).expect("converts");
    assert_eq!(doc.title.as_deref(), Some("Quarterly numbers"));
}

#[test]
fn the_envelope_renders_as_a_table() {
    let doc = convert(&sample()).expect("converts");
    let out = format!("{:?}", doc.blocks);
    assert!(out.contains("ada@example.invalid"), "{out}");
    assert!(out.contains("grace@example.invalid"), "{out}");
    assert!(doc.blocks.iter().any(|b| matches!(b, Block::Table(_))));
}

#[test]
fn the_body_splits_into_paragraphs() {
    let doc = convert(&sample()).expect("converts");
    let paras: Vec<String> = doc
        .blocks
        .iter()
        .filter_map(|b| match b {
            Block::Paragraph(i) => Some(i.to_plain()),
            _ => None,
        })
        .collect();
    assert!(paras.contains(&"First line.".to_owned()), "{paras:?}");
    assert!(paras.contains(&"Second line.".to_owned()), "{paras:?}");
}

#[test]
fn ascii_properties_decode_too() {
    let bytes = msg_of(&[
        ("__substg1.0_0037001E", b"Plain subject".to_vec()),
        ("__substg1.0_1000001E", b"Body text".to_vec()),
    ]);
    let doc = convert(&bytes).expect("converts");
    assert_eq!(doc.title.as_deref(), Some("Plain subject"));
}

#[test]
fn attachments_are_named_and_flagged_as_unconverted() {
    let mut props = vec![
        ("__substg1.0_0037001F", utf16("With attachment")),
        ("__substg1.0_1000001F", utf16("see attached")),
    ];
    props.push(("__substg1.0_3707001F", utf16("report.pdf")));
    let doc = convert(&msg_of(&props)).expect("converts");
    let out = format!("{:?}", doc.blocks);
    assert!(out.contains("report.pdf"), "{out}");
    assert!(
        doc.warnings
            .iter()
            .any(|w| w.kind == WarningKind::SkippedMember),
        "an unconverted attachment must not be silent"
    );
}

#[test]
fn an_html_only_body_is_reported_rather_than_dropped_silently() {
    let bytes = msg_of(&[
        ("__substg1.0_0037001F", utf16("HTML only")),
        ("__substg1.0_1013001F", utf16("<p>hi</p>")),
    ]);
    let doc = convert(&bytes).expect("converts");
    assert!(
        doc.warnings.iter().any(|w| w.kind == WarningKind::Degraded),
        "{:?}",
        doc.warnings
    );
}

#[test]
fn a_compound_file_with_no_mapi_streams_is_rejected() {
    let bytes = msg_of(&[("Workbook", b"not a message".to_vec())]);
    let e = convert(&bytes).unwrap_err();
    assert_eq!(e.code(), "malformed");
}

#[test]
fn a_non_ole_file_is_malformed_not_a_panic() {
    assert!(convert(b"not compound at all").is_err());
}

#[test]
fn stream_names_parse_into_tag_and_encoding() {
    assert_eq!(
        parse_stream_name("__substg1.0_0037001F"),
        Some(("0037".to_owned(), PropertyKind::Utf16))
    );
    assert_eq!(
        parse_stream_name("__substg1.0_1000001E"),
        Some(("1000".to_owned(), PropertyKind::Ascii))
    );
    assert_eq!(parse_stream_name("Workbook"), None);
    assert_eq!(parse_stream_name("__substg1.0_00"), None);
}

#[test]
fn only_ole_files_named_msg_are_accepted() {
    let ole = Probe::new(&[0xD0, 0xCF, 0x11, 0xE0, 0xA1, 0xB1, 0x1A, 0xE1, 0, 0]);
    assert!(OutlookMsgConverter.accepts(&ole, &StreamInfo::new().with_extension("msg")));
    // Legacy .xls shares the container; it must not be read as a message.
    assert!(!OutlookMsgConverter.accepts(&ole, &StreamInfo::new().with_extension("xls")));
}

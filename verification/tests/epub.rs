//! Books.

use mcpg_markdown_convert::converters::epub::{EpubConverter, normalise};
use mcpg_markdown_convert::{Block, WarningKind};
use mcpg_markdown_convert::{Budget, ConvertCx, Limits};
use mcpg_markdown_convert::{Converter, Document, StreamInfo};
use std::io::{Cursor, Write};

fn zip_of(parts: &[(&str, &str)]) -> Vec<u8> {
    let mut buf = Vec::new();
    {
        let mut w = zip::ZipWriter::new(Cursor::new(&mut buf));
        let opts: zip::write::FileOptions<'_, ()> = zip::write::FileOptions::default();
        for (name, body) in parts {
            w.start_file(*name, opts).unwrap();
            w.write_all(body.as_bytes()).unwrap();
        }
        w.finish().unwrap();
    }
    buf
}

const CONTAINER: &str = r#"<?xml version="1.0"?>
    <container xmlns="urn:oasis:names:tc:opendocument:xmlns:container">
      <rootfiles><rootfile full-path="OEBPS/content.opf"
        media-type="application/oebps-package+xml"/></rootfiles>
    </container>"#;

fn opf(spine: &str) -> String {
    format!(
        r#"<?xml version="1.0"?>
        <package xmlns="http://www.idpf.org/2007/opf" version="3.0">
          <metadata xmlns:dc="http://purl.org/dc/elements/1.1/">
            <dc:title>A Book</dc:title>
            <dc:creator>Ada</dc:creator>
            <dc:language>en</dc:language>
          </metadata>
          <manifest>
            <item id="c1" href="ch1.xhtml" media-type="application/xhtml+xml"/>
            <item id="c2" href="ch2.xhtml" media-type="application/xhtml+xml"/>
          </manifest>
          <spine>{spine}</spine>
        </package>"#
    )
}

fn chapter(title: &str, body: &str) -> String {
    format!(
        r#"<?xml version="1.0"?>
        <html xmlns="http://www.w3.org/1999/xhtml"><body>
          <h1>{title}</h1><p>{body}</p>
        </body></html>"#
    )
}

fn book(spine: &str) -> Vec<u8> {
    let one = chapter("Chapter One", "First words.");
    let two = chapter("Chapter Two", "Second words.");
    let package = opf(spine);
    zip_of(&[
        ("mimetype", "application/epub+zip"),
        ("META-INF/container.xml", CONTAINER),
        ("OEBPS/content.opf", &package),
        ("OEBPS/ch1.xhtml", &one),
        ("OEBPS/ch2.xhtml", &two),
    ])
}

fn convert(bytes: &[u8]) -> Document {
    let mut b = Budget::new(Limits::default());
    let mut cx = ConvertCx::new(&mut b);
    EpubConverter
        .convert(bytes, &StreamInfo::new().with_extension("epub"), &mut cx)
        .expect("converts")
}

fn headings(doc: &Document) -> Vec<String> {
    doc.blocks
        .iter()
        .filter_map(|b| match b {
            Block::Heading { text, .. } => Some(text.to_plain()),
            _ => None,
        })
        .collect()
}

#[test]
fn chapters_follow_the_spine_not_the_zip_order() {
    // Spine says chapter two first. A generic archive walk would give the
    // opposite, which is exactly the bug this converter exists to avoid.
    let doc = convert(&book(r#"<itemref idref="c2"/><itemref idref="c1"/>"#));
    assert_eq!(headings(&doc), vec!["Chapter Two", "Chapter One"]);
}

#[test]
fn the_navigation_document_is_not_emitted_as_a_chapter() {
    // EPUB 3 puts nav in the spine like any chapter. Converting it emits
    // the table of contents as prose, immediately followed by the very
    // chapters it lists.
    let one = chapter("Chapter One", "First words.");
    let nav = r#"<?xml version="1.0"?>
        <html xmlns:epub="http://www.idpf.org/2007/ops"><body>
          <nav epub:type="toc"><ol><li>Chapter One</li></ol></nav>
        </body></html>"#;
    let package = r#"<?xml version="1.0"?>
        <package xmlns="http://www.idpf.org/2007/opf" version="3.0">
          <metadata xmlns:dc="http://purl.org/dc/elements/1.1/">
            <dc:title>A Book</dc:title>
          </metadata>
          <manifest>
            <item id="nav" href="nav.xhtml" media-type="application/xhtml+xml"
                  properties="nav"/>
            <item id="c1" href="ch1.xhtml" media-type="application/xhtml+xml"/>
          </manifest>
          <spine><itemref idref="nav"/><itemref idref="c1"/></spine>
        </package>"#;
    let bytes = zip_of(&[
        ("META-INF/container.xml", CONTAINER),
        ("OEBPS/content.opf", package),
        ("OEBPS/nav.xhtml", nav),
        ("OEBPS/ch1.xhtml", &one),
    ]);
    let doc = convert(&bytes);
    assert_eq!(headings(&doc), vec!["Chapter One"], "{:?}", doc.blocks);
    // Skipping nav is the correct reading, not a degradation.
    assert!(
        !doc.warnings
            .iter()
            .any(|w| w.kind == WarningKind::SkippedMember),
        "{:?}",
        doc.warnings
    );
}

#[test]
fn metadata_comes_from_the_opf() {
    let doc = convert(&book(r#"<itemref idref="c1"/>"#));
    assert_eq!(doc.title.as_deref(), Some("A Book"));
    assert_eq!(doc.metadata.author.as_deref(), Some("Ada"));
    assert_eq!(doc.metadata.language.as_deref(), Some("en"));
}

#[test]
fn chapter_prose_is_extracted_once() {
    let doc = convert(&book(r#"<itemref idref="c1"/>"#));
    let paras: Vec<String> = doc
        .blocks
        .iter()
        .filter_map(|b| match b {
            Block::Paragraph(i) => Some(i.to_plain()),
            _ => None,
        })
        .collect();
    assert_eq!(paras, vec!["First words."], "{paras:?}");
}

#[test]
fn a_missing_spine_target_is_a_warning_not_a_failure() {
    let doc = convert(&book(r#"<itemref idref="nope"/><itemref idref="c1"/>"#));
    assert!(
        doc.warnings
            .iter()
            .any(|w| w.kind == WarningKind::SkippedMember),
        "{:?}",
        doc.warnings
    );
    assert_eq!(headings(&doc), vec!["Chapter One"]);
}

#[test]
fn an_empty_spine_warns() {
    let doc = convert(&book(""));
    assert!(
        doc.warnings
            .iter()
            .any(|w| w.kind == WarningKind::NoTextLayer)
    );
}

#[test]
fn a_zip_without_a_container_is_a_clear_error() {
    let bytes = zip_of(&[("random.txt", "x")]);
    let mut b = Budget::new(Limits::default());
    let mut cx = ConvertCx::new(&mut b);
    let e = EpubConverter
        .convert(&bytes, &StreamInfo::new().with_extension("epub"), &mut cx)
        .unwrap_err();
    assert!(e.to_string().contains("container.xml"), "{}", e.to_string());
}

#[test]
fn relative_segments_in_an_href_resolve() {
    assert_eq!(normalise("OEBPS/../text/ch1.xhtml"), "text/ch1.xhtml");
    assert_eq!(normalise("OEBPS/./ch1.xhtml"), "OEBPS/ch1.xhtml");
}

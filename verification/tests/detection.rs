//! Detection.

use mcpg_markdown_convert::detect::sniff_charset;
use mcpg_markdown_convert::{Signal, StreamInfo, detect};
use std::io::{Cursor, Write};

fn zip_of(names: &[&str]) -> Vec<u8> {
    let mut buf = Vec::new();
    {
        let mut w = zip::ZipWriter::new(Cursor::new(&mut buf));
        let opts: zip::write::FileOptions<'_, ()> = zip::write::FileOptions::default();
        for n in names {
            w.start_file(*n, opts).unwrap();
            w.write_all(b"x").unwrap();
        }
        w.finish().unwrap();
    }
    buf
}

#[test]
fn pdf_magic_wins_over_a_lying_extension() {
    let si = StreamInfo::new().with_filename("invoice.docx");
    let d = detect(b"%PDF-1.7\n%stuff", &si);
    assert_eq!(d.guesses[0].mimetype.as_deref(), Some("application/pdf"));
    assert_eq!(d.leading_signal, Signal::Content);
    assert!(d.mismatch.is_some(), "should report the disagreement");
}

#[test]
fn ooxml_family_comes_from_the_central_directory() {
    for (entry, want) in [
        ("word/document.xml", "docx"),
        ("ppt/presentation.xml", "pptx"),
        ("xl/workbook.xml", "xlsx"),
    ] {
        let bytes = zip_of(&["[Content_Types].xml", entry]);
        let d = detect(&bytes, &StreamInfo::new());
        assert_eq!(
            d.guesses[0].extension.as_deref(),
            Some(want),
            "entry {entry}"
        );
    }
}

#[test]
fn ooxml_detection_survives_entry_reordering() {
    // The marker file last — a writer is free to do this and some do.
    let bytes = zip_of(&["word/document.xml", "[Content_Types].xml"]);
    let d = detect(&bytes, &StreamInfo::new());
    assert_eq!(d.guesses[0].extension.as_deref(), Some("docx"));
}

#[test]
fn epub_is_distinguished_from_a_plain_zip() {
    let epub = zip_of(&["mimetype", "META-INF/container.xml", "OEBPS/ch1.xhtml"]);
    assert_eq!(
        detect(&epub, &StreamInfo::new()).guesses[0]
            .extension
            .as_deref(),
        Some("epub")
    );
    let plain = zip_of(&["a.txt", "b.txt"]);
    assert_eq!(
        detect(&plain, &StreamInfo::new()).guesses[0]
            .extension
            .as_deref(),
        Some("zip")
    );
}

#[test]
fn zip_container_mislabel_is_not_a_mismatch() {
    let bytes = zip_of(&["[Content_Types].xml", "word/document.xml"]);
    let si = StreamInfo::new().with_mimetype("application/zip");
    assert!(detect(&bytes, &si).mismatch.is_none());
}

#[test]
fn extension_outranks_a_generic_declared_type_for_text() {
    let si = StreamInfo::new()
        .with_mimetype("text/plain")
        .with_filename("data.csv");
    let d = detect(b"a,b\n1,2\n", &si);
    assert_eq!(d.guesses[0].mimetype.as_deref(), Some("text/csv"));
    // The caller's own view survives further down the ladder.
    assert!(d.guesses.iter().any(|g| g.is_mime("text/plain")));
}

#[test]
fn unnamed_text_still_gets_one_attempt() {
    let d = detect(b"just some words\n", &StreamInfo::new());
    assert!(!d.guesses.is_empty());
    assert!(d.guesses.iter().any(|g| g.is_mime("text/plain")));
}

#[test]
fn guesses_are_deduped() {
    let si = StreamInfo::new()
        .with_mimetype("text/csv")
        .with_filename("x.csv");
    let d = detect(b"a,b\n", &si);
    let csv_guesses = d.guesses.iter().filter(|g| g.is_mime("text/csv")).count();
    assert_eq!(csv_guesses, 1, "{:?}", d.guesses);
}

#[test]
fn charset_prefers_a_bom_then_utf8() {
    assert_eq!(sniff_charset(b"\xEF\xBB\xBFhi"), "utf-8");
    assert_eq!(sniff_charset("héllo".as_bytes()), "utf-8");
    assert_eq!(sniff_charset(b"\xFF\xFEh\x00"), "utf-16le");
}

#[test]
fn ole_container_is_recognised() {
    let mut bytes = vec![0xD0, 0xCF, 0x11, 0xE0, 0xA1, 0xB1, 0x1A, 0xE1];
    bytes.extend_from_slice(&[0u8; 64]);
    let d = detect(&bytes, &StreamInfo::new());
    assert_eq!(d.guesses[0].extension.as_deref(), Some("msg"));
}

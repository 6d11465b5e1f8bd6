//! What is known about an input.

use mcpg_markdown_convert::stream_info::{PROBE_BYTES, normalize_mime};
use mcpg_markdown_convert::{Probe, StreamInfo};

#[test]
fn filename_derives_extension() {
    let si = StreamInfo::new().with_filename("Report.FINAL.DocX");
    assert_eq!(si.extension.as_deref(), Some("docx"));
    assert_eq!(si.filename.as_deref(), Some("Report.FINAL.DocX"));
}

#[test]
fn explicit_extension_survives_filename() {
    let si = StreamInfo::new()
        .with_extension("csv")
        .with_filename("data.bin");
    assert_eq!(si.extension.as_deref(), Some("csv"));
}

#[test]
fn mime_normalisation_drops_parameters() {
    assert_eq!(normalize_mime("Text/HTML; charset=UTF-8"), "text/html");
}

#[test]
fn probe_window_is_bounded() {
    let big = vec![b'a'; PROBE_BYTES * 3];
    let p = Probe::new(&big);
    assert_eq!(p.head().len(), PROBE_BYTES);
    assert_eq!(p.len(), PROBE_BYTES * 3);
}

#[test]
fn probe_detects_binary() {
    assert!(!Probe::new(b"PK\x03\x04\x00\x00").looks_textual());
    assert!(Probe::new(b"hello, world\n").looks_textual());
    assert!(Probe::new(b"").looks_textual());
}

#[test]
fn probe_contains_is_window_bounded() {
    let p = Probe::new(b"abcdef");
    assert!(p.contains(b"cde"));
    assert!(!p.contains(b"xyz"));
    assert!(!p.contains(b""));
}

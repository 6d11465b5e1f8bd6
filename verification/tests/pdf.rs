//! PDF files.

use calamine::Reader;
use lofty::file::{AudioFile, TaggedFileExt};
use lofty::tag::ItemKey;
use mcpg_markdown_convert::converters::media::{AudioFacts, AudioRead};
use mcpg_markdown_convert::converters::pdf::{PdfFile, PdfInfo};
use mcpg_markdown_convert::converters::pdf::{PAGE_COUNT_KEY, PdfConverter, SCANNED_PAGES_KEY, decode_pdf_string};
use mcpg_markdown_convert::converters::pdf::{heading_shape, page_blocks, page_list, rejoin};
use mcpg_markdown_convert::converters::sheet::{Cell, Sheet};
use mcpg_markdown_convert::{Budget, ConvertCx, Limits};
use mcpg_markdown_convert::{ConvertError, Probe, WarningKind};
use mcpg_markdown_convert::{Converter, Document, StreamInfo};
use mcpg_markdown_convert::{Extracted, Extractor, Parsed, Written};
use std::io::Cursor;

/// Runs the extractors as they are; the files here are sound.
#[derive(Clone, Copy)]
struct Host;

fn cell(c: &calamine::Data) -> Cell {
    match c {
        calamine::Data::Empty => Cell::Empty,
        calamine::Data::String(s) => Cell::Text(s.clone()),
        calamine::Data::Float(f) => Cell::Number(f.to_string()),
        calamine::Data::Int(i) => Cell::Int(*i),
        calamine::Data::Bool(b) => Cell::Bool(*b),
        calamine::Data::DateTime(d) => {
            if d.is_duration() {
                Cell::Hours(format!("{:.4}", d.as_f64() * 24.0))
            } else {
                let (year, month, day, hour, minute, second, _) = d.to_ymd_hms_milli();
                Cell::DateTime { year, month, day, hour, minute, second }
            }
        }
        calamine::Data::DateTimeIso(s) | calamine::Data::DurationIso(s) => Cell::Iso(s.clone()),
        calamine::Data::Error(e) => Cell::Fault(format!("{e:?}")),
    }
}

impl Extractor for Host {
    fn pdf_file(&self, bytes: &[u8]) -> Extracted<PdfFile> {
        let d = match pdf_extract::Document::load_mem(bytes) {
            Ok(d) => d,
            Err(e) => return Extracted::Failed(e.to_string()),
        };
        let info = d
            .trailer
            .get(b"Info")
            .and_then(|o| o.as_reference())
            .and_then(|r| d.get_object(r))
            .and_then(|o| o.as_dict())
            .ok();
        let text = |key: &str| Some(info?.get(key.as_bytes()).ok()?.as_str().ok()?.to_vec());
        Extracted::Ready(PdfFile {
            encrypted: d.is_encrypted(),
            info: PdfInfo {
                title: text("Title"),
                author: text("Author"),
                created: text("CreationDate"),
                modified: text("ModDate"),
                subject: text("Subject"),
                keywords: text("Keywords"),
                producer: text("Producer"),
                creator: text("Creator"),
            },
        })
    }

    fn markdown(&self, html: &str) -> Extracted<String> {
        match htmd::convert(html) {
            Ok(m) => Extracted::Ready(m),
            Err(e) => Extracted::Failed(e.to_string()),
        }
    }

    fn audio(&self, bytes: &[u8]) -> Extracted<AudioRead> {
        let probe = match lofty::probe::Probe::new(Cursor::new(bytes)).guess_file_type() {
            Ok(p) => p,
            Err(e) => return Extracted::Failed(e.to_string()),
        };
        if probe.file_type().is_none() {
            return Extracted::Ready(AudioRead::Unknown);
        }
        let file = match probe.read() {
            Ok(f) => f,
            Err(e) => return Extracted::Ready(AudioRead::Unread(e.to_string())),
        };
        let tag = file.primary_tag().or_else(|| file.first_tag());
        let text = |key: ItemKey| tag.and_then(|t| t.get_string(key)).map(str::to_owned);
        let p = file.properties();
        Extracted::Ready(AudioRead::Read(AudioFacts {
            seconds: p.duration().as_secs(),
            bitrate: p.audio_bitrate(),
            sample_rate: p.sample_rate(),
            title: text(ItemKey::TrackTitle),
            artist: text(ItemKey::TrackArtist),
            album: text(ItemKey::AlbumTitle),
            date: text(ItemKey::RecordingDate),
            comment: text(ItemKey::Comment),
        }))
    }

    fn pdf_pages(&self, bytes: &[u8]) -> Extracted<Vec<String>> {
        match pdf_extract::extract_text_from_mem_by_pages(bytes) {
            Ok(pages) => Extracted::Ready(pages),
            Err(e) => Extracted::Failed(e.to_string()),
        }
    }

    fn sheets(&self, bytes: &[u8]) -> Extracted<Vec<Sheet>> {
        let mut book = match calamine::open_workbook_auto_from_rs(Cursor::new(bytes.to_vec())) {
            Ok(b) => b,
            Err(e) => return Extracted::Failed(e.to_string()),
        };
        let mut out = Vec::new();
        for name in book.sheet_names().to_vec() {
            let cells = book.worksheet_range(&name).ok().map(|r| {
                r.rows().map(|row| row.iter().map(cell).collect()).collect()
            });
            out.push(Sheet { name, cells });
        }
        Extracted::Ready(out)
    }

    fn add_template(
        &self,
        _env: &mut minijinja::Environment<'static>,
        _name: &str,
        _source: &str,
    ) -> Parsed {
        Parsed::Panicked
    }

    fn write(
        &self,
        _env: &minijinja::Environment<'static>,
        _name: &str,
        _context: &serde_json::Value,
    ) -> Written {
        Written::Panicked
    }
}

fn convert(bytes: &[u8]) -> Result<Document, ConvertError> {
    let mut b = Budget::new(Limits::default());
    let mut cx = ConvertCx::new(&mut b);
    PdfConverter(Host).convert(bytes, &StreamInfo::new().with_extension("pdf"), &mut cx)
}

/// The smallest structurally valid PDF: catalog, page tree, one page with
/// a content stream that draws one string.
fn minimal_pdf(text: &str) -> Vec<u8> {
    let content = format!("BT /F1 12 Tf 72 720 Td ({text}) Tj ET");
    let mut objects: Vec<String> = Vec::new();
    objects.push("<< /Type /Catalog /Pages 2 0 R >>".to_owned());
    objects.push("<< /Type /Pages /Kids [3 0 R] /Count 1 >>".to_owned());
    objects.push(
        "<< /Type /Page /Parent 2 0 R /MediaBox [0 0 612 792] \
         /Resources << /Font << /F1 5 0 R >> >> /Contents 4 0 R >>"
            .to_owned(),
    );
    objects.push(format!(
        "<< /Length {} >>\nstream\n{content}\nendstream",
        content.len()
    ));
    objects.push(
        "<< /Type /Font /Subtype /Type1 /BaseFont /Helvetica /Encoding /WinAnsiEncoding >>"
            .to_owned(),
    );

    let mut out = String::from("%PDF-1.4\n");
    let mut offsets = Vec::new();
    for (i, body) in objects.iter().enumerate() {
        offsets.push(out.len());
        out.push_str(&format!("{} 0 obj\n{body}\nendobj\n", i + 1));
    }
    let xref_at = out.len();
    out.push_str(&format!("xref\n0 {}\n", objects.len() + 1));
    out.push_str("0000000000 65535 f \n");
    for off in &offsets {
        out.push_str(&format!("{off:010} 00000 n \n"));
    }
    out.push_str(&format!(
        "trailer\n<< /Size {} /Root 1 0 R >>\nstartxref\n{xref_at}\n%%EOF\n",
        objects.len() + 1
    ));
    out.into_bytes()
}

#[test]
fn a_pdf_with_a_text_layer_yields_its_words() {
    let doc = convert(&minimal_pdf("Hello from a PDF")).expect("converts");
    let out = format!("{:?}", doc.blocks);
    assert!(out.contains("Hello"), "{out}");
}

#[test]
fn a_non_pdf_is_malformed_not_a_panic() {
    let e = convert(b"not a pdf at all").unwrap_err();
    assert!(
        matches!(e, ConvertError::Malformed { .. }),
        "{} ({})",
        e.to_string(),
        e.code()
    );
}

#[test]
fn a_truncated_pdf_is_malformed() {
    let mut bytes = minimal_pdf("x");
    bytes.truncate(bytes.len() / 2);
    assert!(convert(&bytes).is_err());
}

#[test]
fn only_actual_pdf_bytes_are_accepted() {
    let pdf = StreamInfo::new().with_extension("pdf");
    assert!(PdfConverter(Host).accepts(&Probe::new(b"%PDF-1.7\n"), &pdf));
    // The extension alone is not enough — a mislabelled file must reach
    // whatever converter actually matches it.
    assert!(!PdfConverter(Host).accepts(&Probe::new(b"PK\x03\x04"), &pdf));
    // ...and an unlabelled PDF still converts.
    assert!(PdfConverter(Host).accepts(&Probe::new(b"%PDF-1.7\n"), &StreamInfo::new()));
}

// --- heuristics -------------------------------------------------------

#[test]
fn numbered_sections_become_nested_headings() {
    assert_eq!(heading_shape("1 Introduction"), Some(1));
    assert_eq!(heading_shape("3.2 Results"), Some(2));
    assert_eq!(heading_shape("3.2.1 Detail"), Some(3));
}

#[test]
fn all_caps_short_lines_become_headings() {
    assert_eq!(heading_shape("EXECUTIVE SUMMARY"), Some(2));
}

#[test]
fn ordinary_prose_is_never_promoted_to_a_heading() {
    assert_eq!(heading_shape("This is a normal sentence."), None);
    assert_eq!(
        heading_shape("A line with no full stop but rather a lot of words in it indeed truly"),
        None
    );
    assert_eq!(heading_shape("two\nlines"), None);
    assert_eq!(heading_shape("Introduction:"), None);
}

#[test]
fn extraction_line_breaks_are_rejoined() {
    assert_eq!(rejoin("one\ntwo\nthree"), "one two three");
}

#[test]
fn hyphenation_across_a_line_break_is_repaired() {
    assert_eq!(rejoin("multi-\nline word"), "multiline word");
}

#[test]
fn the_empty_page_list_is_capped() {
    let many: Vec<usize> = (1..=40).collect();
    let s = page_list(&many);
    assert!(s.contains("and 28 more"), "{s}");
    assert!(s.len() < 120, "{s}");
}

#[test]
fn utf16_metadata_strings_decode() {
    let raw = [0xFE, 0xFF, 0x00, b'H', 0x00, b'i'];
    assert_eq!(decode_pdf_string(&raw), "Hi");
    assert_eq!(decode_pdf_string(b"Plain"), "Plain");
}

#[test]
fn a_page_with_no_text_raises_no_text_layer() {
    let mut fired = false;
    assert!(page_blocks("   \n  ", &mut fired).is_empty());
    assert!(!fired);
}

#[test]
fn a_scanned_page_is_recorded_in_metadata_not_only_in_prose() {
    // The plugin's OCR pass keys on this. Leaving the page list only in
    // the warning text would make a human-readable string a contract.
    let doc = convert(&minimal_pdf_without_text()).expect("converts");
    assert_eq!(doc.metadata.get(SCANNED_PAGES_KEY), Some("1"));
    assert_eq!(doc.metadata.get(PAGE_COUNT_KEY), Some("1"));
    assert!(
        doc.warnings
            .iter()
            .any(|w| w.kind == WarningKind::NoTextLayer),
        "{:?}",
        doc.warnings
    );
}

#[test]
fn a_pdf_with_text_records_no_scanned_pages() {
    let doc = convert(&minimal_pdf("Readable text")).expect("converts");
    assert_eq!(doc.metadata.get(SCANNED_PAGES_KEY), None);
}

/// A structurally valid PDF whose page draws nothing — the shape a scan
/// takes once the image is stripped.
fn minimal_pdf_without_text() -> Vec<u8> {
    minimal_pdf("")
}

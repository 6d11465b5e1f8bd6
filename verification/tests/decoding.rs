//! Text decoding and the set of converters.

use calamine::Reader;
use lofty::file::{AudioFile, TaggedFileExt};
use lofty::tag::ItemKey;
use mcpg_markdown_convert::converters::media::{AudioFacts, AudioRead};
use mcpg_markdown_convert::converters::pdf::{PdfFile, PdfInfo};
use mcpg_markdown_convert::converters::builtin::builtin_registry;
use mcpg_markdown_convert::converters::sheet::{Cell, Sheet};
use mcpg_markdown_convert::converters::{decode_text, squeeze};
use mcpg_markdown_convert::{Extracted, Extractor, Parsed, Written};
use std::io::Cursor;

/// Runs the extractors as they are; the files here are sound.
#[derive(Clone, Copy)]
struct Host;

fn cell(c: &calamine::Data) -> Cell {
    match c {
        calamine::Data::Empty => Cell::Empty,
        calamine::Data::String(s) => Cell::Text(s.clone()),
        calamine::Data::Float(f) => Cell::Number(f.to_string()),
        calamine::Data::Int(i) => Cell::Int(*i),
        calamine::Data::Bool(b) => Cell::Bool(*b),
        calamine::Data::DateTime(d) => {
            if d.is_duration() {
                Cell::Hours(format!("{:.4}", d.as_f64() * 24.0))
            } else {
                let (year, month, day, hour, minute, second, _) = d.to_ymd_hms_milli();
                Cell::DateTime { year, month, day, hour, minute, second }
            }
        }
        calamine::Data::DateTimeIso(s) | calamine::Data::DurationIso(s) => Cell::Iso(s.clone()),
        calamine::Data::Error(e) => Cell::Fault(format!("{e:?}")),
    }
}

impl Extractor for Host {
    fn pdf_file(&self, bytes: &[u8]) -> Extracted<PdfFile> {
        let d = match pdf_extract::Document::load_mem(bytes) {
            Ok(d) => d,
            Err(e) => return Extracted::Failed(e.to_string()),
        };
        let info = d
            .trailer
            .get(b"Info")
            .and_then(|o| o.as_reference())
            .and_then(|r| d.get_object(r))
            .and_then(|o| o.as_dict())
            .ok();
        let text = |key: &str| Some(info?.get(key.as_bytes()).ok()?.as_str().ok()?.to_vec());
        Extracted::Ready(PdfFile {
            encrypted: d.is_encrypted(),
            info: PdfInfo {
                title: text("Title"),
                author: text("Author"),
                created: text("CreationDate"),
                modified: text("ModDate"),
                subject: text("Subject"),
                keywords: text("Keywords"),
                producer: text("Producer"),
                creator: text("Creator"),
            },
        })
    }

    fn markdown(&self, html: &str) -> Extracted<String> {
        match htmd::convert(html) {
            Ok(m) => Extracted::Ready(m),
            Err(e) => Extracted::Failed(e.to_string()),
        }
    }

    fn audio(&self, bytes: &[u8]) -> Extracted<AudioRead> {
        let probe = match lofty::probe::Probe::new(Cursor::new(bytes)).guess_file_type() {
            Ok(p) => p,
            Err(e) => return Extracted::Failed(e.to_string()),
        };
        if probe.file_type().is_none() {
            return Extracted::Ready(AudioRead::Unknown);
        }
        let file = match probe.read() {
            Ok(f) => f,
            Err(e) => return Extracted::Ready(AudioRead::Unread(e.to_string())),
        };
        let tag = file.primary_tag().or_else(|| file.first_tag());
        let text = |key: ItemKey| tag.and_then(|t| t.get_string(key)).map(str::to_owned);
        let p = file.properties();
        Extracted::Ready(AudioRead::Read(AudioFacts {
            seconds: p.duration().as_secs(),
            bitrate: p.audio_bitrate(),
            sample_rate: p.sample_rate(),
            title: text(ItemKey::TrackTitle),
            artist: text(ItemKey::TrackArtist),
            album: text(ItemKey::AlbumTitle),
            date: text(ItemKey::RecordingDate),
            comment: text(ItemKey::Comment),
        }))
    }

    fn pdf_pages(&self, bytes: &[u8]) -> Extracted<Vec<String>> {
        match pdf_extract::extract_text_from_mem_by_pages(bytes) {
            Ok(pages) => Extracted::Ready(pages),
            Err(e) => Extracted::Failed(e.to_string()),
        }
    }

    fn sheets(&self, bytes: &[u8]) -> Extracted<Vec<Sheet>> {
        let mut book = match calamine::open_workbook_auto_from_rs(Cursor::new(bytes.to_vec())) {
            Ok(b) => b,
            Err(e) => return Extracted::Failed(e.to_string()),
        };
        let mut out = Vec::new();
        for name in book.sheet_names().to_vec() {
            let cells = book.worksheet_range(&name).ok().map(|r| {
                r.rows().map(|row| row.iter().map(cell).collect()).collect()
            });
            out.push(Sheet { name, cells });
        }
        Extracted::Ready(out)
    }

    fn add_template(
        &self,
        _env: &mut minijinja::Environment<'static>,
        _name: &str,
        _source: &str,
    ) -> Parsed {
        Parsed::Panicked
    }

    fn write(
        &self,
        _env: &minijinja::Environment<'static>,
        _name: &str,
        _context: &serde_json::Value,
    ) -> Written {
        Written::Panicked
    }
}

#[test]
fn decode_honours_a_declared_charset() {
    // "é" in latin-1 is a single 0xE9 byte, invalid UTF-8.
    assert_eq!(decode_text(&[0xE9], Some("iso-8859-1")), "é");
}

#[test]
fn decode_falls_back_to_detection() {
    assert_eq!(decode_text("héllo".as_bytes(), None), "héllo");
}

#[test]
fn decode_never_fails_on_broken_bytes() {
    let out = decode_text(&[0xFF, 0xFE, 0x00, 0x41], Some("utf-8"));
    assert!(!out.is_empty());
}

#[test]
fn decode_strips_a_leading_bom() {
    assert_eq!(decode_text(b"\xEF\xBB\xBFhi", Some("utf-8")), "hi");
}

#[test]
fn squeeze_collapses_runs() {
    assert_eq!(squeeze("  a \n\t b  "), "a b");
    assert_eq!(squeeze(""), "");
}

#[test]
fn the_registry_registers_something() {
    let r = builtin_registry(Host);
    assert!(!r.is_empty());
    assert!(r.names().contains(&"text"));
}

#[test]
fn converter_names_are_unique() {
    let names = builtin_registry(Host).names();
    let mut sorted = names.clone();
    sorted.sort_unstable();
    sorted.dedup();
    assert_eq!(
        sorted.len(),
        names.len(),
        "duplicate converter name in {names:?}"
    );
}

//! Archives.

use calamine::Reader;
use lofty::file::{AudioFile, TaggedFileExt};
use lofty::tag::ItemKey;
use mcpg_markdown_convert::converters::media::{AudioFacts, AudioRead};
use mcpg_markdown_convert::converters::pdf::{PdfFile, PdfInfo};
use mcpg_markdown_convert::converters::sheet::{Cell, Sheet};
use mcpg_markdown_convert::converters::zip::ZipConverter;
use mcpg_markdown_convert::{Block, ConvertError, Probe, WarningKind};
use mcpg_markdown_convert::{Budget, ConvertCx, Limits};
use mcpg_markdown_convert::{Converter, Document, StreamInfo};
use mcpg_markdown_convert::{Extracted, Extractor, Parsed, Written};
use std::io::Cursor;
use std::io::Write;

/// Runs the extractors as they are; the files here are sound.
#[derive(Clone, Copy)]
struct Host;

fn cell(c: &calamine::Data) -> Cell {
    match c {
        calamine::Data::Empty => Cell::Empty,
        calamine::Data::String(s) => Cell::Text(s.clone()),
        calamine::Data::Float(f) => Cell::Number(f.to_string()),
        calamine::Data::Int(i) => Cell::Int(*i),
        calamine::Data::Bool(b) => Cell::Bool(*b),
        calamine::Data::DateTime(d) => {
            if d.is_duration() {
                Cell::Hours(format!("{:.4}", d.as_f64() * 24.0))
            } else {
                let (year, month, day, hour, minute, second, _) = d.to_ymd_hms_milli();
                Cell::DateTime { year, month, day, hour, minute, second }
            }
        }
        calamine::Data::DateTimeIso(s) | calamine::Data::DurationIso(s) => Cell::Iso(s.clone()),
        calamine::Data::Error(e) => Cell::Fault(format!("{e:?}")),
    }
}

impl Extractor for Host {
    fn pdf_file(&self, bytes: &[u8]) -> Extracted<PdfFile> {
        let d = match pdf_extract::Document::load_mem(bytes) {
            Ok(d) => d,
            Err(e) => return Extracted::Failed(e.to_string()),
        };
        let info = d
            .trailer
            .get(b"Info")
            .and_then(|o| o.as_reference())
            .and_then(|r| d.get_object(r))
            .and_then(|o| o.as_dict())
            .ok();
        let text = |key: &str| Some(info?.get(key.as_bytes()).ok()?.as_str().ok()?.to_vec());
        Extracted::Ready(PdfFile {
            encrypted: d.is_encrypted(),
            info: PdfInfo {
                title: text("Title"),
                author: text("Author"),
                created: text("CreationDate"),
                modified: text("ModDate"),
                subject: text("Subject"),
                keywords: text("Keywords"),
                producer: text("Producer"),
                creator: text("Creator"),
            },
        })
    }

    fn markdown(&self, html: &str) -> Extracted<String> {
        match htmd::convert(html) {
            Ok(m) => Extracted::Ready(m),
            Err(e) => Extracted::Failed(e.to_string()),
        }
    }

    fn audio(&self, bytes: &[u8]) -> Extracted<AudioRead> {
        let probe = match lofty::probe::Probe::new(Cursor::new(bytes)).guess_file_type() {
            Ok(p) => p,
            Err(e) => return Extracted::Failed(e.to_string()),
        };
        if probe.file_type().is_none() {
            return Extracted::Ready(AudioRead::Unknown);
        }
        let file = match probe.read() {
            Ok(f) => f,
            Err(e) => return Extracted::Ready(AudioRead::Unread(e.to_string())),
        };
        let tag = file.primary_tag().or_else(|| file.first_tag());
        let text = |key: ItemKey| tag.and_then(|t| t.get_string(key)).map(str::to_owned);
        let p = file.properties();
        Extracted::Ready(AudioRead::Read(AudioFacts {
            seconds: p.duration().as_secs(),
            bitrate: p.audio_bitrate(),
            sample_rate: p.sample_rate(),
            title: text(ItemKey::TrackTitle),
            artist: text(ItemKey::TrackArtist),
            album: text(ItemKey::AlbumTitle),
            date: text(ItemKey::RecordingDate),
            comment: text(ItemKey::Comment),
        }))
    }

    fn pdf_pages(&self, bytes: &[u8]) -> Extracted<Vec<String>> {
        match pdf_extract::extract_text_from_mem_by_pages(bytes) {
            Ok(pages) => Extracted::Ready(pages),
            Err(e) => Extracted::Failed(e.to_string()),
        }
    }

    fn sheets(&self, bytes: &[u8]) -> Extracted<Vec<Sheet>> {
        let mut book = match calamine::open_workbook_auto_from_rs(Cursor::new(bytes.to_vec())) {
            Ok(b) => b,
            Err(e) => return Extracted::Failed(e.to_string()),
        };
        let mut out = Vec::new();
        for name in book.sheet_names().to_vec() {
            let cells = book.worksheet_range(&name).ok().map(|r| {
                r.rows().map(|row| row.iter().map(cell).collect()).collect()
            });
            out.push(Sheet { name, cells });
        }
        Extracted::Ready(out)
    }

    fn add_template(
        &self,
        _env: &mut minijinja::Environment<'static>,
        _name: &str,
        _source: &str,
    ) -> Parsed {
        Parsed::Panicked
    }

    fn write(
        &self,
        _env: &minijinja::Environment<'static>,
        _name: &str,
        _context: &serde_json::Value,
    ) -> Written {
        Written::Panicked
    }
}

fn zip_of(parts: &[(&str, &[u8])]) -> Vec<u8> {
    let mut buf = Vec::new();
    {
        let mut w = zip::ZipWriter::new(Cursor::new(&mut buf));
        let opts: zip::write::FileOptions<'_, ()> = zip::write::FileOptions::default()
            .compression_method(zip::CompressionMethod::Deflated);
        for (name, body) in parts {
            w.start_file(*name, opts).unwrap();
            w.write_all(body).unwrap();
        }
        w.finish().unwrap();
    }
    buf
}

fn convert_with(bytes: &[u8], limits: Limits) -> Result<Document, ConvertError> {
    let mut b = Budget::new(limits);
    let mut cx = ConvertCx::new(&mut b);
    ZipConverter(Host).convert(bytes, &StreamInfo::new().with_extension("zip"), &mut cx)
}

fn convert(bytes: &[u8]) -> Document {
    convert_with(bytes, Limits::default()).expect("converts")
}

#[test]
fn members_become_embedded_documents() {
    let bytes = zip_of(&[("a.txt", b"hello"), ("b.csv", b"x,y\n1,2\n")]);
    let doc = convert(&bytes);
    let names: Vec<String> = doc
        .blocks
        .iter()
        .filter_map(|b| match b {
            Block::Embedded { name, .. } => Some(name.clone()),
            _ => None,
        })
        .collect();
    assert_eq!(names, vec!["a.txt", "b.csv"]);
}

#[test]
fn member_names_are_sanitised_before_they_reach_the_output() {
    let bytes = zip_of(&[("../../etc/passwd", b"root:x:0:0")]);
    let doc = convert(&bytes);
    let out = format!("{:?}", doc.blocks);
    assert!(!out.contains(".."), "{out}");
    assert!(out.contains("etc/passwd"), "{out}");
}

#[test]
fn directories_are_not_treated_as_members() {
    let bytes = zip_of(&[("dir/", b""), ("dir/a.txt", b"x")]);
    let n = convert(&bytes)
        .blocks
        .iter()
        .filter(|b| matches!(b, Block::Embedded { .. }))
        .count();
    assert_eq!(n, 1);
}

#[test]
fn a_highly_compressible_member_cannot_exceed_the_expansion_budget() {
    // 4 MB of zeros compresses to a few kilobytes: the classic shape of a
    // zip bomb, at a size the test can afford.
    let bomb = vec![0u8; 4 * 1024 * 1024];
    let bytes = zip_of(&[("bomb.bin", &bomb)]);
    assert!(bytes.len() < 64 * 1024, "fixture did not compress");

    let doc = convert_with(
        &bytes,
        Limits {
            max_expanded_bytes: 4096,
            ..Limits::default()
        },
    )
    .expect("skips the member rather than failing");
    assert!(
        doc.warnings
            .iter()
            .any(|w| w.kind == WarningKind::SkippedMember || w.kind == WarningKind::Truncated),
        "{:?}",
        doc.warnings
    );
    assert!(doc.blocks.is_empty(), "the bomb was expanded anyway");
}

#[test]
fn a_lying_size_header_does_not_get_the_member_read() {
    // The guard that matters is the capped read, not the declared size.
    let big = vec![b'a'; 200_000];
    let bytes = zip_of(&[("big.txt", &big)]);
    let doc = convert_with(
        &bytes,
        Limits {
            max_expanded_bytes: 1000,
            ..Limits::default()
        },
    )
    .expect("skips");
    assert!(doc.blocks.is_empty());
}

#[test]
fn member_count_is_capped() {
    let bodies: Vec<(String, Vec<u8>)> = (0..20)
        .map(|i| (format!("f{i}.txt"), b"x".to_vec()))
        .collect();
    let parts: Vec<(&str, &[u8])> = bodies
        .iter()
        .map(|(n, b)| (n.as_str(), b.as_slice()))
        .collect();
    let bytes = zip_of(&parts);
    let doc = convert_with(
        &bytes,
        Limits {
            max_embedded_documents: 5,
            ..Limits::default()
        },
    )
    .expect("converts");
    let n = doc
        .blocks
        .iter()
        .filter(|b| matches!(b, Block::Embedded { .. }))
        .count();
    assert!(n <= 5, "{n} members converted");
    assert!(
        doc.warnings
            .iter()
            .any(|w| w.kind == WarningKind::Truncated)
    );
}

#[test]
fn nesting_stops_at_max_depth_with_a_warning() {
    let inner = zip_of(&[("deep.txt", b"deep")]);
    let outer = zip_of(&[("inner.zip", &inner)]);
    let doc = convert_with(
        &outer,
        Limits {
            max_depth: 1,
            ..Limits::default()
        },
    )
    .expect("converts");
    let out = format!("{doc:?}");
    assert!(out.contains("max_depth"), "{out}");
    assert!(
        !out.contains("deep"),
        "nested content escaped the depth cap"
    );
}

#[test]
fn an_unconvertible_member_is_skipped_not_fatal() {
    let bytes = zip_of(&[
        ("good.txt", b"fine"),
        ("bad.bin", &[0xFF, 0x00, 0xFE, 0x01]),
    ]);
    let doc = convert(&bytes);
    assert!(
        doc.blocks
            .iter()
            .any(|b| matches!(b, Block::Embedded { name, .. } if name == "good.txt"))
    );
}

#[test]
fn an_empty_archive_warns() {
    let bytes = zip_of(&[]);
    let doc = convert(&bytes);
    assert!(
        doc.warnings
            .iter()
            .any(|w| w.kind == WarningKind::NoTextLayer)
    );
}

#[test]
fn ooxml_containers_are_left_to_their_own_converters() {
    // The zip converter would happily accept these; the extension check
    // is what keeps a .docx from being rendered as a pile of XML parts.
    let p = Probe::new(b"PK\x03\x04");
    assert!(ZipConverter(Host).accepts(&p, &StreamInfo::new().with_extension("zip")));
    for ext in ["docx", "pptx", "xlsx", "epub"] {
        assert!(
            !ZipConverter(Host).accepts(&p, &StreamInfo::new().with_extension(ext)),
            "zip claimed .{ext}"
        );
    }
}

//! The attempts of an engine.

use calamine::Reader;
use lofty::file::{AudioFile, TaggedFileExt};
use lofty::tag::ItemKey;
use mcpg_markdown_convert::converters::media::{AudioFacts, AudioRead};
use mcpg_markdown_convert::converters::pdf::{PdfFile, PdfInfo};
use mcpg_markdown_convert::converters::builtin::{Builtin, builtin_registry};
use mcpg_markdown_convert::converters::sheet::{Cell, Sheet};
use mcpg_markdown_convert::{Block, ConvertCx, ConvertError, ConvertOptions, Converter, ConverterRegistry};
use mcpg_markdown_convert::{Document, Engine, FormatSelection, Inline, Limits, PRIORITY_GENERIC};
use mcpg_markdown_convert::{Extracted, Extractor, Parsed, Written};
use mcpg_markdown_convert::{PRIORITY_SPECIFIC, Probe, StreamInfo, WarningKind};
use std::io::Cursor;

/// Runs the extractors as they are; the files here are sound.
#[derive(Clone, Copy)]
struct Host;

fn cell(c: &calamine::Data) -> Cell {
    match c {
        calamine::Data::Empty => Cell::Empty,
        calamine::Data::String(s) => Cell::Text(s.clone()),
        calamine::Data::Float(f) => Cell::Number(f.to_string()),
        calamine::Data::Int(i) => Cell::Int(*i),
        calamine::Data::Bool(b) => Cell::Bool(*b),
        calamine::Data::DateTime(d) => {
            if d.is_duration() {
                Cell::Hours(format!("{:.4}", d.as_f64() * 24.0))
            } else {
                let (year, month, day, hour, minute, second, _) = d.to_ymd_hms_milli();
                Cell::DateTime { year, month, day, hour, minute, second }
            }
        }
        calamine::Data::DateTimeIso(s) | calamine::Data::DurationIso(s) => Cell::Iso(s.clone()),
        calamine::Data::Error(e) => Cell::Fault(format!("{e:?}")),
    }
}

impl Extractor for Host {
    fn pdf_file(&self, bytes: &[u8]) -> Extracted<PdfFile> {
        let d = match pdf_extract::Document::load_mem(bytes) {
            Ok(d) => d,
            Err(e) => return Extracted::Failed(e.to_string()),
        };
        let info = d
            .trailer
            .get(b"Info")
            .and_then(|o| o.as_reference())
            .and_then(|r| d.get_object(r))
            .and_then(|o| o.as_dict())
            .ok();
        let text = |key: &str| Some(info?.get(key.as_bytes()).ok()?.as_str().ok()?.to_vec());
        Extracted::Ready(PdfFile {
            encrypted: d.is_encrypted(),
            info: PdfInfo {
                title: text("Title"),
                author: text("Author"),
                created: text("CreationDate"),
                modified: text("ModDate"),
                subject: text("Subject"),
                keywords: text("Keywords"),
                producer: text("Producer"),
                creator: text("Creator"),
            },
        })
    }

    fn markdown(&self, html: &str) -> Extracted<String> {
        match htmd::convert(html) {
            Ok(m) => Extracted::Ready(m),
            Err(e) => Extracted::Failed(e.to_string()),
        }
    }

    fn audio(&self, bytes: &[u8]) -> Extracted<AudioRead> {
        let probe = match lofty::probe::Probe::new(Cursor::new(bytes)).guess_file_type() {
            Ok(p) => p,
            Err(e) => return Extracted::Failed(e.to_string()),
        };
        if probe.file_type().is_none() {
            return Extracted::Ready(AudioRead::Unknown);
        }
        let file = match probe.read() {
            Ok(f) => f,
            Err(e) => return Extracted::Ready(AudioRead::Unread(e.to_string())),
        };
        let tag = file.primary_tag().or_else(|| file.first_tag());
        let text = |key: ItemKey| tag.and_then(|t| t.get_string(key)).map(str::to_owned);
        let p = file.properties();
        Extracted::Ready(AudioRead::Read(AudioFacts {
            seconds: p.duration().as_secs(),
            bitrate: p.audio_bitrate(),
            sample_rate: p.sample_rate(),
            title: text(ItemKey::TrackTitle),
            artist: text(ItemKey::TrackArtist),
            album: text(ItemKey::AlbumTitle),
            date: text(ItemKey::RecordingDate),
            comment: text(ItemKey::Comment),
        }))
    }

    fn pdf_pages(&self, bytes: &[u8]) -> Extracted<Vec<String>> {
        match pdf_extract::extract_text_from_mem_by_pages(bytes) {
            Ok(pages) => Extracted::Ready(pages),
            Err(e) => Extracted::Failed(e.to_string()),
        }
    }

    fn sheets(&self, bytes: &[u8]) -> Extracted<Vec<Sheet>> {
        let mut book = match calamine::open_workbook_auto_from_rs(Cursor::new(bytes.to_vec())) {
            Ok(b) => b,
            Err(e) => return Extracted::Failed(e.to_string()),
        };
        let mut out = Vec::new();
        for name in book.sheet_names().to_vec() {
            let cells = book.worksheet_range(&name).ok().map(|r| {
                r.rows().map(|row| row.iter().map(cell).collect()).collect()
            });
            out.push(Sheet { name, cells });
        }
        Extracted::Ready(out)
    }

    fn add_template(
        &self,
        env: &mut minijinja::Environment<'static>,
        name: &str,
        source: &str,
    ) -> Parsed {
        match env.add_template_owned(name.to_owned(), source.to_owned()) {
            Ok(()) => Parsed::Sound,
            Err(e) => Parsed::Faulty(e.to_string()),
        }
    }

    fn write(
        &self,
        env: &minijinja::Environment<'static>,
        name: &str,
        context: &serde_json::Value,
    ) -> Written {
        match env.get_template(name) {
            Err(e) => Written::Missing(e.to_string()),
            Ok(t) => match t.render(context) {
                Ok(s) => Written::Text(s),
                Err(e) => Written::Failed(e.to_string()),
            },
        }
    }
}

/// The library's converters and two that belong to these tests.
enum Any {
    Own(Builtin<Host>),
    /// One whose panic the host's guard has caught.
    Panicky,
    Always(&'static str),
}

impl Converter for Any {
    fn name(&self) -> &'static str {
        match self {
            Any::Own(b) => b.name(),
            Any::Panicky => "panicky",
            Any::Always(n) => n,
        }
    }

    fn priority(&self) -> i32 {
        match self {
            Any::Own(b) => b.priority(),
            Any::Panicky => PRIORITY_SPECIFIC - 10,
            Any::Always(_) => PRIORITY_GENERIC + 10,
        }
    }

    fn accepts(&self, probe: &Probe<'_>, info: &StreamInfo) -> bool {
        match self {
            Any::Own(b) => b.accepts(probe, info),
            _ => true,
        }
    }

    fn convert(
        &self,
        bytes: &[u8],
        info: &StreamInfo,
        cx: &mut ConvertCx<'_>,
    ) -> Result<Document, ConvertError> {
        match self {
            Any::Own(b) => b.convert(bytes, info, cx),
            Any::Panicky => Err(ConvertError::ConverterPanic { format: "panicky" }),
            Any::Always(_) => {
                let mut d = Document::new();
                d.push(Block::Paragraph(Inline::text("rescued")));
                Ok(d)
            }
        }
    }
}

fn build(options: ConvertOptions) -> Result<Engine<Any, Host>, ConvertError> {
    let own = builtin_registry(Host);
    let mut all = ConverterRegistry::new();
    for b in own.iter().into_iter().rev() {
        all.register(Any::Own(Builtin { kind: b.kind, tools: b.tools }));
    }
    Engine::with_registry(all, options, Host)
}

fn engine() -> Engine<Any, Host> {
    build(ConvertOptions::default()).expect("default options build")
}

#[test]
fn a_panicking_converter_does_not_take_the_request_down() {
    let mut e = engine();
    e.register(Any::Panicky);
    e.register(Any::Always("rescue"));
    let out = e
        .convert(b"whatever", &StreamInfo::new())
        .expect("falls through to the next converter");
    assert!(out.markdown.contains("rescued"));
}

#[test]
fn a_panic_with_nothing_behind_it_surfaces_as_an_error() {
    let mut e = build(ConvertOptions {
        formats: FormatSelection {
            enable: Some(vec!["text".to_owned()]),
        },
        ..ConvertOptions::default()
    })
    .unwrap();
    e.register(Any::Panicky);
    // Binary input, so the text converter declines and only Panicky runs.
    let err = e.convert(&[0u8, 1, 2, 3], &StreamInfo::new()).unwrap_err();
    assert_eq!(err.code(), "panic");
}

#[test]
fn unknown_format_names_what_was_tried() {
    // `csv` is in every build, so this assertion does not change meaning
    // with the feature set.
    let e = build(ConvertOptions {
        formats: FormatSelection {
            enable: Some(vec!["csv".to_owned()]),
        },
        ..ConvertOptions::default()
    })
    .unwrap();
    let err = e
        .convert(&[0xFFu8, 0xD8, 0x00, 0x01], &StreamInfo::new())
        .unwrap_err();
    assert_eq!(err.code(), "unsupported");
    assert!(err.to_string().contains("tried:"), "{}", err.to_string());
}

#[test]
fn an_unknown_format_name_fails_at_build_time() {
    let err = build(ConvertOptions {
        formats: FormatSelection {
            enable: Some(vec!["nonesuch".to_owned()]),
        },
        ..ConvertOptions::default()
    })
    .err()
    .unwrap();
    assert_eq!(err.code(), "invalid_input");
    assert!(err.to_string().contains("nonesuch"));
}

#[test]
fn oversized_input_is_refused_before_conversion() {
    let e = build(ConvertOptions {
        limits: Limits {
            max_input_bytes: 8,
            ..Limits::default()
        },
        ..ConvertOptions::default()
    })
    .unwrap();
    let err = e.convert(&[b'a'; 64], &StreamInfo::new()).unwrap_err();
    assert_eq!(err.code(), "limit_exceeded");
}

#[test]
fn a_type_mismatch_reaches_the_caller_as_a_warning() {
    let e = engine();
    let si = StreamInfo::new().with_filename("notes.txt");
    let out = e.convert(b"%PDF-1.4 broken", &si);
    // Either the PDF converter refuses the truncated file or it succeeds
    // with a warning; both are acceptable. What must not happen is a
    // silent conversion under the wrong type.
    if let Ok(c) = out {
        assert!(
            c.warnings
                .iter()
                .any(|w| w.kind == WarningKind::TypeMismatch),
            "{:?}",
            c.warnings
        );
    }
}

#[test]
fn an_engine_names_its_converters_and_renders_documents() {
    let mut registry: ConverterRegistry<Builtin<Host>> = builtin_registry(Host);
    registry.retain_names(&["csv".to_owned(), "text".to_owned()]);
    let engine = Engine::with_registry(registry, ConvertOptions::default(), Host).expect("builds");
    assert_eq!(engine.converter_names(), ["csv", "text"]);
    let mut doc = Document::new();
    doc.push(Block::Paragraph(Inline::text("hello")));
    let out = engine.render_document(&doc).expect("renders");
    assert_eq!(out.markdown, "hello\n");
    assert!(out.warnings.is_empty());
}

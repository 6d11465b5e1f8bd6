//! Bytes in, Markdown out.

use calamine::Reader;
use lofty::file::{AudioFile, TaggedFileExt};
use lofty::tag::ItemKey;
use mcpg_markdown_convert::converters::media::{AudioFacts, AudioRead};
use mcpg_markdown_convert::converters::pdf::{PdfFile, PdfInfo};
use mcpg_markdown_convert::converters::builtin::Builtin;
use mcpg_markdown_convert::converters::sheet::{Cell, Sheet};
use mcpg_markdown_convert::{ConvertOptions, Engine, Limits, RenderOptions, StreamInfo};
use mcpg_markdown_convert::{Extracted, Extractor, Parsed, Written};
use std::io::Cursor;

/// Runs the extractors as they are; the files here are sound.
#[derive(Clone, Copy)]
struct Host;

fn cell(c: &calamine::Data) -> Cell {
    match c {
        calamine::Data::Empty => Cell::Empty,
        calamine::Data::String(s) => Cell::Text(s.clone()),
        calamine::Data::Float(f) => Cell::Number(f.to_string()),
        calamine::Data::Int(i) => Cell::Int(*i),
        calamine::Data::Bool(b) => Cell::Bool(*b),
        calamine::Data::DateTime(d) => {
            if d.is_duration() {
                Cell::Hours(format!("{:.4}", d.as_f64() * 24.0))
            } else {
                let (year, month, day, hour, minute, second, _) = d.to_ymd_hms_milli();
                Cell::DateTime { year, month, day, hour, minute, second }
            }
        }
        calamine::Data::DateTimeIso(s) | calamine::Data::DurationIso(s) => Cell::Iso(s.clone()),
        calamine::Data::Error(e) => Cell::Fault(format!("{e:?}")),
    }
}

impl Extractor for Host {
    fn pdf_file(&self, bytes: &[u8]) -> Extracted<PdfFile> {
        let d = match pdf_extract::Document::load_mem(bytes) {
            Ok(d) => d,
            Err(e) => return Extracted::Failed(e.to_string()),
        };
        let info = d
            .trailer
            .get(b"Info")
            .and_then(|o| o.as_reference())
            .and_then(|r| d.get_object(r))
            .and_then(|o| o.as_dict())
            .ok();
        let text = |key: &str| Some(info?.get(key.as_bytes()).ok()?.as_str().ok()?.to_vec());
        Extracted::Ready(PdfFile {
            encrypted: d.is_encrypted(),
            info: PdfInfo {
                title: text("Title"),
                author: text("Author"),
                created: text("CreationDate"),
                modified: text("ModDate"),
                subject: text("Subject"),
                keywords: text("Keywords"),
                producer: text("Producer"),
                creator: text("Creator"),
            },
        })
    }

    fn markdown(&self, html: &str) -> Extracted<String> {
        match htmd::convert(html) {
            Ok(m) => Extracted::Ready(m),
            Err(e) => Extracted::Failed(e.to_string()),
        }
    }

    fn audio(&self, bytes: &[u8]) -> Extracted<AudioRead> {
        let probe = match lofty::probe::Probe::new(Cursor::new(bytes)).guess_file_type() {
            Ok(p) => p,
            Err(e) => return Extracted::Failed(e.to_string()),
        };
        if probe.file_type().is_none() {
            return Extracted::Ready(AudioRead::Unknown);
        }
        let file = match probe.read() {
            Ok(f) => f,
            Err(e) => return Extracted::Ready(AudioRead::Unread(e.to_string())),
        };
        let tag = file.primary_tag().or_else(|| file.first_tag());
        let text = |key: ItemKey| tag.and_then(|t| t.get_string(key)).map(str::to_owned);
        let p = file.properties();
        Extracted::Ready(AudioRead::Read(AudioFacts {
            seconds: p.duration().as_secs(),
            bitrate: p.audio_bitrate(),
            sample_rate: p.sample_rate(),
            title: text(ItemKey::TrackTitle),
            artist: text(ItemKey::TrackArtist),
            album: text(ItemKey::AlbumTitle),
            date: text(ItemKey::RecordingDate),
            comment: text(ItemKey::Comment),
        }))
    }

    fn pdf_pages(&self, bytes: &[u8]) -> Extracted<Vec<String>> {
        match pdf_extract::extract_text_from_mem_by_pages(bytes) {
            Ok(pages) => Extracted::Ready(pages),
            Err(e) => Extracted::Failed(e.to_string()),
        }
    }

    fn sheets(&self, bytes: &[u8]) -> Extracted<Vec<Sheet>> {
        let mut book = match calamine::open_workbook_auto_from_rs(Cursor::new(bytes.to_vec())) {
            Ok(b) => b,
            Err(e) => return Extracted::Failed(e.to_string()),
        };
        let mut out = Vec::new();
        for name in book.sheet_names().to_vec() {
            let cells = book.worksheet_range(&name).ok().map(|r| {
                r.rows().map(|row| row.iter().map(cell).collect()).collect()
            });
            out.push(Sheet { name, cells });
        }
        Extracted::Ready(out)
    }

    fn add_template(
        &self,
        env: &mut minijinja::Environment<'static>,
        name: &str,
        source: &str,
    ) -> Parsed {
        match env.add_template_owned(name.to_owned(), source.to_owned()) {
            Ok(()) => Parsed::Sound,
            Err(e) => Parsed::Faulty(e.to_string()),
        }
    }

    fn write(
        &self,
        env: &minijinja::Environment<'static>,
        name: &str,
        context: &serde_json::Value,
    ) -> Written {
        match env.get_template(name) {
            Err(e) => Written::Missing(e.to_string()),
            Ok(t) => match t.render(context) {
                Ok(s) => Written::Text(s),
                Err(e) => Written::Failed(e.to_string()),
            },
        }
    }
}

fn engine() -> Engine<Builtin<Host>, Host> {
    Engine::new(ConvertOptions::default(), Host).expect("default profile builds")
}

fn convert(bytes: &[u8], info: &StreamInfo) -> mcpg_markdown_convert::Conversion {
    engine().convert(bytes, info).expect("converts")
}

#[test]
fn csv_reaches_the_csv_converter_and_renders_a_table() {
    let out = convert(
        b"name,age\nada,36\n",
        &StreamInfo::new().with_filename("people.csv"),
    );
    assert_eq!(out.converter, "csv");
    assert!(out.markdown.contains("| name | age |"), "{}", out.markdown);
}

#[test]
fn a_csv_mislabelled_as_plain_text_still_reaches_the_csv_converter() {
    // The extension outranks a generic declared type. This is the case
    // markitdown's guess ladder exists for.
    let info = StreamInfo::new()
        .with_mimetype("text/plain")
        .with_filename("people.csv");
    assert_eq!(convert(b"a,b\n1,2\n", &info).converter, "csv");
}

#[test]
fn an_unnamed_text_stream_falls_through_to_the_text_converter() {
    let out = convert(b"just some prose\n", &StreamInfo::new());
    assert_eq!(out.converter, "text");
    assert!(out.markdown.contains("just some prose"));
}

#[test]
fn a_json_file_with_a_lying_extension_still_converts() {
    // Content sniffing cannot help here (JSON has no magic bytes), so this
    // exercises the fall-through: the JSON converter declines, and text
    // catches it rather than the whole call failing.
    let info = StreamInfo::new().with_filename("data.docx");
    let out = engine().convert(br#"{"a":1}"#, &info);
    assert!(out.is_ok(), "{:?}", out.err());
}

#[test]
fn markdown_input_survives_a_round_trip_unescaped() {
    let src = "# Heading\n\n- one\n- two\n";
    let out = convert(src.as_bytes(), &StreamInfo::new().with_filename("in.md"));
    assert!(out.markdown.contains("# Heading"), "{}", out.markdown);
    assert!(!out.markdown.contains("\\#"), "{}", out.markdown);
}

#[test]
fn front_matter_is_emitted_when_asked_for() {
    let e = Engine::new(ConvertOptions {
        output: RenderOptions {
            front_matter: mcpg_markdown_convert::FrontMatter::Yaml,
            ..RenderOptions::default()
        },
        ..ConvertOptions::default()
    }, Host)
    .unwrap();
    let out = e
        .convert(b"# T\n\nbody\n", &StreamInfo::new().with_filename("x.md"))
        .unwrap();
    assert!(out.markdown.starts_with("---\n"), "{}", out.markdown);
    assert!(out.markdown.contains("title: \"T\""), "{}", out.markdown);
}

#[test]
fn the_input_ceiling_is_enforced_before_any_parsing() {
    let e = Engine::new(ConvertOptions {
        limits: Limits {
            max_input_bytes: 16,
            ..Limits::default()
        },
        ..ConvertOptions::default()
    }, Host)
    .unwrap();
    let err = e
        .convert(&vec![b'a'; 1024], &StreamInfo::new())
        .unwrap_err();
    assert_eq!(err.code(), "limit_exceeded");
}

#[test]
fn every_compiled_converter_is_reachable_by_name() {
    // `formats.enable` is validated against this list, so a converter that is
    // registered but unnamed would be impossible to enable.
    let names = mcpg_markdown_convert::available_formats();
    assert!(!names.is_empty());
    for n in &names {
        assert!(!n.is_empty());
        let e = Engine::new(ConvertOptions {
            formats: mcpg_markdown_convert::FormatSelection {
                enable: Some(vec![(*n).to_owned()]),
            },
            ..ConvertOptions::default()
        }, Host);
        assert!(e.is_ok(), "{n} could not be enabled on its own");
    }
}

#[test]
fn output_is_deterministic_for_the_same_input() {
    let info = StreamInfo::new().with_filename("x.csv");
    let a = convert(b"a,b\n1,2\n", &info);
    let b = convert(b"a,b\n1,2\n", &info);
    assert_eq!(a.markdown, b.markdown);
}

#[test]
fn a_conversion_reports_which_signal_chose_the_format() {
    let out = convert(b"a,b\n1,2\n", &StreamInfo::new().with_filename("x.csv"));
    assert_eq!(out.detected_via, "extension");
}

#[test]
fn html_reaches_the_html_converter() {
    let out = convert(
        b"<h1>Hi</h1><p>there</p>",
        &StreamInfo::new().with_filename("page.html"),
    );
    assert_eq!(out.converter, "html");
    assert!(out.markdown.contains("# Hi"), "{}", out.markdown);
}

//! What the library has from other crates, reached through its own functions.

use mcpg_markdown_convert::converters::csv::{CsvConverter, parses_as_float};
use mcpg_markdown_convert::converters::decode_text;
use lofty::file::{AudioFile, TaggedFileExt};
use lofty::tag::ItemKey;
use mcpg_markdown_convert::converters::html::{HtmlConverter, decode_entities, strip_non_prose};
use mcpg_markdown_convert::converters::json::JsonConverter;
use mcpg_markdown_convert::converters::media::{AudioConverter, AudioFacts, AudioRead, ImageConverter};
use mcpg_markdown_convert::converters::msg::{PropertyKind, decode_property};
use mcpg_markdown_convert::converters::ooxml::DocxConverter;
use mcpg_markdown_convert::converters::pdf::{convert_pages, decode_pdf_string, heading_shape};
use mcpg_markdown_convert::converters::pdf::{PdfFile, PdfInfo, map_extraction_error, open_pdf, page_list};
use mcpg_markdown_convert::converters::sheet::{Cell, Sheet, cell_text, convert_sheets};
use mcpg_markdown_convert::detect::{mime_for_extension, sniff_charset};
use mcpg_markdown_convert::render::{escape_cell_text, escape_table_cell, escape_text};
use mcpg_markdown_convert::template::{gfm_table, truncate_at_line, validate_block_names};
use mcpg_markdown_convert::{Block, Budget, ConvertCx, ConvertError, ConvertOptions, Converter};
use mcpg_markdown_convert::{Document, Engine, Extracted, Extractor, FormatSelection, Inline};
use mcpg_markdown_convert::{Limits, RenderExtras, RenderOptions, StreamInfo, Table, TemplateSpec};
use mcpg_markdown_convert::{Templates, Warning, WarningKind, detect};
use mcpg_markdown_convert::{Parsed, Written};
use std::io::Cursor;

fn run(c: &dyn Converter, bytes: &[u8], info: &StreamInfo) -> Result<Document, ConvertError> {
    let mut b = Budget::new(Limits::default());
    let mut cx = ConvertCx::new(&mut b);
    c.convert(bytes, info, &mut cx)
}

/// Fails in every way a host can.
#[derive(Clone, Copy)]
struct Broken;

impl Extractor for Broken {
    fn pdf_file(&self, _bytes: &[u8]) -> Extracted<PdfFile> {
        Extracted::Failed("no trailer".to_owned())
    }

    fn markdown(&self, _html: &str) -> Extracted<String> {
        Extracted::Panicked
    }

    fn audio(&self, _bytes: &[u8]) -> Extracted<AudioRead> {
        Extracted::Ready(AudioRead::Unread("bad frame".to_owned()))
    }

    fn pdf_pages(&self, _bytes: &[u8]) -> Extracted<Vec<String>> {
        Extracted::Panicked
    }

    fn sheets(&self, _bytes: &[u8]) -> Extracted<Vec<Sheet>> {
        Extracted::Failed("no workbook".to_owned())
    }

    fn add_template(
        &self,
        _env: &mut minijinja::Environment<'static>,
        _name: &str,
        _source: &str,
    ) -> Parsed {
        Parsed::Panicked
    }

    fn write(
        &self,
        _env: &minijinja::Environment<'static>,
        _name: &str,
        _context: &serde_json::Value,
    ) -> Written {
        Written::Panicked
    }
}

/// Runs the extractors as they are; the files here are sound.
#[derive(Clone, Copy)]
struct Host;

impl Extractor for Host {
    fn pdf_pages(&self, _bytes: &[u8]) -> Extracted<Vec<String>> {
        Extracted::Panicked
    }

    fn sheets(&self, _bytes: &[u8]) -> Extracted<Vec<Sheet>> {
        Extracted::Panicked
    }

    fn pdf_file(&self, bytes: &[u8]) -> Extracted<PdfFile> {
        let d = match pdf_extract::Document::load_mem(bytes) {
            Ok(d) => d,
            Err(e) => return Extracted::Failed(e.to_string()),
        };
        let info = d
            .trailer
            .get(b"Info")
            .and_then(|o| o.as_reference())
            .and_then(|r| d.get_object(r))
            .and_then(|o| o.as_dict())
            .ok();
        let text = |key: &str| Some(info?.get(key.as_bytes()).ok()?.as_str().ok()?.to_vec());
        Extracted::Ready(PdfFile {
            encrypted: d.is_encrypted(),
            info: PdfInfo {
                title: text("Title"),
                author: text("Author"),
                created: text("CreationDate"),
                modified: text("ModDate"),
                subject: text("Subject"),
                keywords: text("Keywords"),
                producer: text("Producer"),
                creator: text("Creator"),
            },
        })
    }

    fn markdown(&self, html: &str) -> Extracted<String> {
        match htmd::convert(html) {
            Ok(m) => Extracted::Ready(m),
            Err(e) => Extracted::Failed(e.to_string()),
        }
    }

    fn audio(&self, bytes: &[u8]) -> Extracted<AudioRead> {
        let probe = match lofty::probe::Probe::new(Cursor::new(bytes)).guess_file_type() {
            Ok(p) => p,
            Err(e) => return Extracted::Failed(e.to_string()),
        };
        if probe.file_type().is_none() {
            return Extracted::Ready(AudioRead::Unknown);
        }
        let file = match probe.read() {
            Ok(f) => f,
            Err(e) => return Extracted::Ready(AudioRead::Unread(e.to_string())),
        };
        let tag = file.primary_tag().or_else(|| file.first_tag());
        let text = |key: ItemKey| tag.and_then(|t| t.get_string(key)).map(str::to_owned);
        let p = file.properties();
        Extracted::Ready(AudioRead::Read(AudioFacts {
            seconds: p.duration().as_secs(),
            bitrate: p.audio_bitrate(),
            sample_rate: p.sample_rate(),
            title: text(ItemKey::TrackTitle),
            artist: text(ItemKey::TrackArtist),
            album: text(ItemKey::AlbumTitle),
            date: text(ItemKey::RecordingDate),
            comment: text(ItemKey::Comment),
        }))
    }

    fn add_template(
        &self,
        env: &mut minijinja::Environment<'static>,
        name: &str,
        source: &str,
    ) -> Parsed {
        match env.add_template_owned(name.to_owned(), source.to_owned()) {
            Ok(()) => Parsed::Sound,
            Err(e) => Parsed::Faulty(e.to_string()),
        }
    }

    fn write(
        &self,
        env: &minijinja::Environment<'static>,
        name: &str,
        context: &serde_json::Value,
    ) -> Written {
        match env.get_template(name) {
            Err(e) => Written::Missing(e.to_string()),
            Ok(t) => match t.render(context) {
                Ok(s) => Written::Text(s),
                Err(e) => Written::Failed(e.to_string()),
            },
        }
    }
}

// --- text and encodings -----------------------------------------------------

#[test]
fn other_encodings_are_guessed_and_decoded() {
    let text = "これは日本語の文章です。文字コードを推測します。";
    let (bytes, _, lossy) = encoding_rs::SHIFT_JIS.encode(text);
    assert!(!lossy);
    assert_eq!(sniff_charset(&bytes), "shift_jis");
    assert_eq!(decode_text(&bytes, None), text);
    assert_eq!(decode_text(&[0x93, 0x94], Some("windows-1252")), "\u{201c}\u{201d}");
    assert_eq!(decode_text("é".as_bytes(), Some("no-such-label")), "é");
}

#[test]
fn utf16_strings_are_decoded_pair_by_pair() {
    assert_eq!(decode_pdf_string(&[0xFE, 0xFF, 0xD8, 0x3D, 0xDE, 0x00]), "\u{1f600}");
    assert_eq!(decode_pdf_string(&[0xFE, 0xFF, 0xD8, 0x3D, 0x00, 0x41]), "\u{fffd}A");
    assert_eq!(decode_pdf_string(&[0x41, 0xE9]), "Aé");
    assert_eq!(decode_property(&[0x41, 0x00, 0x42], PropertyKind::Utf16), "A");
    assert_eq!(decode_property(b"abc", PropertyKind::Ascii), "abc");
}

#[test]
fn letters_beyond_ascii_count_as_letters() {
    assert_eq!(escape_text("é_é _é"), "é_é \\_é");
    assert_eq!(heading_shape("ÉTÉ À PARIS"), Some(2));
    assert_eq!(heading_shape("Été à Paris"), None);
    assert_eq!(heading_shape("--- !!! ---"), None);
}

#[test]
fn cells_are_escaped_for_where_they_stand() {
    assert_eq!(escape_cell_text("a\nb|c"), "a<br>b\\|c");
    assert_eq!(escape_table_cell("*a*|b\r\nc\rd\n"), "*a*\\|b<br>c<br>d<br>");
}

// --- detection --------------------------------------------------------------

#[test]
fn types_are_recognised_by_magic_bytes_and_by_extension() {
    let gif = detect(b"GIF89a\x01\x00\x01\x00\x00\x00\x00", &StreamInfo::new());
    assert_eq!(gif.guesses[0].mimetype.as_deref(), Some("image/gif"));
    assert_eq!(gif.guesses[0].extension.as_deref(), Some("gif"));
    assert_eq!(mime_for_extension("flac"), Some("audio/flac"));
    assert_eq!(mime_for_extension("ogv"), Some("video/ogg"));
    assert_eq!(mime_for_extension("no-such-extension"), None);
}

// --- media ------------------------------------------------------------------

/// A JPEG whose only segment is an EXIF block with one field.
fn jpeg_with_make(make: &[u8; 8]) -> Vec<u8> {
    let mut tiff: Vec<u8> = b"II*\0\x08\0\0\0".to_vec();
    tiff.extend_from_slice(&[1, 0]);
    tiff.extend_from_slice(&[0x0F, 0x01, 2, 0, 8, 0, 0, 0, 26, 0, 0, 0]);
    tiff.extend_from_slice(&[0, 0, 0, 0]);
    tiff.extend_from_slice(make);
    let mut out = vec![0xFF, 0xD8, 0xFF, 0xE1];
    out.extend_from_slice(&((tiff.len() + 8) as u16).to_be_bytes());
    out.extend_from_slice(b"Exif\0\0");
    out.extend_from_slice(&tiff);
    out.extend_from_slice(&[0xFF, 0xD9]);
    out
}

#[test]
fn exif_fields_become_metadata() {
    let doc = run(&ImageConverter, &jpeg_with_make(b"Acme Co\0"), &StreamInfo::new())
        .expect("converts");
    assert_eq!(
        doc.metadata.get("Manufacturerofimageinputequipment"),
        Some("\"Acme Co\"")
    );
    assert_eq!(
        doc.warnings[0].message,
        "image converted from metadata only; enable llm.enrich.images for a description of what it depicts"
    );
}

/// One second of silence, with an `INFO` list.
fn wav() -> Vec<u8> {
    let mut body: Vec<u8> = b"WAVEfmt \x10\0\0\0\x01\0\x01\0".to_vec();
    body.extend_from_slice(&8000u32.to_le_bytes());
    body.extend_from_slice(&16000u32.to_le_bytes());
    body.extend_from_slice(&[2, 0, 16, 0]);
    body.extend_from_slice(b"LIST\x1c\0\0\0INFOINAM\x04\0\0\0SongIART\x04\0\0\0Ada\0");
    body.extend_from_slice(b"data");
    body.extend_from_slice(&16000u32.to_le_bytes());
    body.extend_from_slice(&vec![0u8; 16000]);
    let mut out = b"RIFF".to_vec();
    out.extend_from_slice(&(body.len() as u32).to_le_bytes());
    out.extend_from_slice(&body);
    out
}

#[test]
fn audio_tags_and_properties_become_metadata() {
    let info = StreamInfo::new().with_filename("a.wav");
    let doc = run(&AudioConverter(Host), &wav(), &info).expect("converts");
    assert_eq!(doc.title.as_deref(), Some("Song"));
    assert_eq!(doc.metadata.author.as_deref(), Some("Ada"));
    assert_eq!(doc.metadata.get("duration_seconds"), Some("1"));
    assert_eq!(doc.metadata.get("bitrate_kbps"), Some("128"));
    assert_eq!(doc.metadata.get("sample_rate_hz"), Some("8000"));
    assert_eq!(doc.metadata.get("track_title"), Some("Song"));
}

// --- markup and data --------------------------------------------------------

#[test]
fn html_becomes_markdown() {
    let html = b"<html><head><title>T</title></head><body><h1>Head</h1><p>a <b>c</b></p></body></html>";
    let doc = run(&HtmlConverter(Host), html, &StreamInfo::new()).expect("converts");
    assert_eq!(doc.title.as_deref(), Some("T"));
    match &doc.blocks[0] {
        Block::Raw { markdown } => {
            assert!(markdown.contains("# Head"), "{markdown}");
            assert!(markdown.contains("a **c**"), "{markdown}");
        }
        other => panic!("{other:?}"),
    }
}

#[test]
fn nested_json_is_shown_indented() {
    let info = StreamInfo::new().with_extension("json");
    let doc = run(&JsonConverter, b"{\"b\":[1,2.5],\"a\":{}}", &info).expect("converts");
    match &doc.blocks[0] {
        Block::Code { language, text } => {
            assert_eq!(language.as_deref(), Some("json"));
            assert_eq!(text, "{\n  \"a\": {},\n  \"b\": [\n    1,\n    2.5\n  ]\n}");
        }
        other => panic!("{other:?}"),
    }
}

#[test]
fn quoted_csv_fields_are_unquoted() {
    let info = StreamInfo::new().with_extension("csv");
    let doc = run(&CsvConverter, b"h\n\"a \"\"b\"\" c\"\n", &info).expect("converts");
    match &doc.blocks[0] {
        Block::Table(t) => assert_eq!(t.rows[0][0].to_plain(), "a \"b\" c"),
        other => panic!("{other:?}"),
    }
}

#[test]
fn numbers_are_told_from_words() {
    for s in ["1", "-2.5", "1e9", ".5", "5.", "+3", "inf", "NaN", "-infinity"] {
        assert!(parses_as_float(s), "{s}");
        assert!(s.parse::<f64>().is_ok(), "{s}");
    }
    for s in ["", "1a", "e5", ".", "+", "1e", " 1", "0x1", "1_000"] {
        assert!(!parses_as_float(s), "{s}");
        assert!(s.parse::<f64>().is_err(), "{s}");
    }
}

#[test]
fn a_file_that_is_no_container_is_malformed() {
    let e = run(&DocxConverter, b"PK\x03\x04 nothing", &StreamInfo::new()).unwrap_err();
    assert_eq!(e.code(), "malformed");
}

// --- what the host extracts -------------------------------------------------

#[test]
fn a_pdf_that_does_not_load_is_malformed() {
    let e = open_pdf(Host.pdf_file(b"%PDF-1.4\nnothing")).unwrap_err();
    assert_eq!(e.code(), "malformed");
}

fn loaded(encrypted: bool) -> Extracted<PdfFile> {
    Extracted::Ready(PdfFile {
        encrypted,
        info: PdfInfo {
            title: Some(b"Report".to_vec()),
            author: Some(vec![0xFE, 0xFF, 0x00, b'A', 0x00, b'd', 0x00, b'a']),
            created: None,
            modified: None,
            subject: Some(b"s".to_vec()),
            keywords: None,
            producer: None,
            creator: None,
        },
    })
}

#[test]
fn loading_a_pdf_decides_before_its_pages() {
    let doc = open_pdf(loaded(false)).expect("opens");
    assert_eq!(doc.title.as_deref(), Some("Report"));
    assert_eq!(doc.metadata.author.as_deref(), Some("Ada"));
    assert_eq!(doc.metadata.get("subject"), Some("s"));
    assert_eq!(open_pdf(loaded(true)).unwrap_err().code(), "encrypted");
    let e = open_pdf(Broken.pdf_file(b"")).unwrap_err();
    assert_eq!(e.to_string(), "pdf: malformed input — no trailer");
    assert_eq!(open_pdf(Extracted::Panicked).unwrap_err().to_string(), "pdf: converter panicked");
}

#[test]
fn a_host_that_fails_on_markup_or_audio_is_reported() {
    let e = run(&HtmlConverter(Broken), b"<p>x</p>", &StreamInfo::new()).unwrap_err();
    assert_eq!(e.to_string(), "html: converter panicked");
    let doc = run(&AudioConverter(Broken), b"x", &StreamInfo::new()).expect("converts");
    assert_eq!(doc.warnings[0].message, "audio tags could not be read: bad frame");
    let e = run(&AudioConverter(Host), b"no audio at all", &StreamInfo::new()).unwrap_err();
    assert_eq!(e.to_string(), "audio: malformed input — no recognisable audio container");
}

#[test]
fn entities_are_decoded_once_each() {
    assert_eq!(decode_entities("a &lt;b&gt; &quot;c&quot; &apos;d&apos;"), "a <b> \"c\" 'd'");
    assert_eq!(decode_entities("&#65;&#x42;&#X43;&#39;&#x1F600;"), "ABC'\u{1f600}");
    assert_eq!(decode_entities("&amp;lt; &amp;#65;"), "&lt; &#65;");
    assert_eq!(decode_entities("a&nbsp;b"), "a b");
    assert_eq!(decode_entities("&#xD800; &#1114112; &#; &#x; &#12 &bogus; &"), "&#xD800; &#1114112; &#; &#x; &#12 &bogus; &");
}

#[test]
fn only_whole_tag_names_open_what_is_no_prose() {
    let html = "<header>Hi</header><p>x</p>";
    assert_eq!(strip_non_prose(html), html);
    assert_eq!(strip_non_prose("<HEAD><title>t</title></HEAD>a"), "a");
    assert_eq!(strip_non_prose("a<script src=x>b</script>c<style/>d</style>e"), "ace");
    assert_eq!(strip_non_prose("<scripted>b</scripted>"), "<scripted>b</scripted>");
}

#[test]
fn extraction_failures_are_told_apart() {
    let mut b = Budget::new(Limits::default());
    let mut cx = ConvertCx::new(&mut b);
    let info = StreamInfo::new();
    let e = convert_pages(Document::new(), Broken.pdf_pages(b""), &info, &mut cx).unwrap_err();
    assert_eq!(e.to_string(), "pdf: converter panicked");
    let e = convert_sheets(Broken.sheets(b""), &info, &mut cx).unwrap_err();
    assert_eq!(e.to_string(), "spreadsheet: malformed input — no workbook");
    assert_eq!(map_extraction_error("file is Encrypted".to_owned()).code(), "encrypted");
    assert_eq!(
        map_extraction_error("bad xref".to_owned()).to_string(),
        "pdf: malformed input — bad xref"
    );
}

#[test]
fn pages_are_metered() {
    let mut b = Budget::new(Limits { max_expanded_bytes: 4, ..Limits::default() });
    let mut cx = ConvertCx::new(&mut b);
    let pages = Extracted::Ready(vec!["abc".to_owned(), "de".to_owned()]);
    let e = convert_pages(Document::new(), pages, &StreamInfo::new(), &mut cx).unwrap_err();
    assert_eq!(e.to_string(), "limit exceeded: max_expanded_bytes (5 > 4)");
}

#[test]
fn long_page_lists_are_shortened() {
    assert_eq!(page_list(&vec![1, 2, 3]), "1, 2, 3");
    assert_eq!(
        page_list(&(1..=14).collect()),
        "1, 2, 3, 4, 5, 6, 7, 8, 9, 10, 11, 12, … and 2 more"
    );
}

#[test]
fn cells_are_shown_as_text() {
    assert_eq!(cell_text(&Cell::Number("-0".into())), "0");
    assert_eq!(cell_text(&Cell::Number("2.75".into())), "2.75");
    assert_eq!(cell_text(&Cell::Int(i64::MIN)), "-9223372036854775808");
    assert_eq!(cell_text(&Cell::Hours("1.5000".into())), "1.5000 h");
    assert_eq!(cell_text(&Cell::Fault("Div0".into())), "#Div0");
    let midnight = Cell::DateTime { year: 2024, month: 3, day: 9, hour: 0, minute: 0, second: 0 };
    assert_eq!(cell_text(&midnight), "2024-03-09");
    let noon = Cell::DateTime { year: 812, month: 12, day: 31, hour: 12, minute: 5, second: 0 };
    assert_eq!(cell_text(&noon), "0812-12-31T12:05:00");
}

// --- templates --------------------------------------------------------------

#[test]
fn templates_are_rendered_with_the_document() {
    let spec = TemplateSpec {
        document: Some("{{ doc.title | upper }}/{{ 1 + 2 }}".to_owned()),
        blocks: vec![],
    };
    let doc = Document { title: Some("report".into()), ..Document::default() };
    let out = Templates::compile(&spec, &Host)
        .expect("compiles")
        .render(&Host, &doc, &RenderOptions::default(), &Limits::default(), RenderExtras::default())
        .expect("renders");
    assert_eq!(out.markdown, "REPORT/3\n");
}

#[test]
fn a_failing_template_is_an_error() {
    let spec = TemplateSpec {
        document: Some("{{ doc.no.such() }}".to_owned()),
        blocks: vec![],
    };
    let e = Templates::compile(&spec, &Host)
        .expect("compiles")
        .render(
            &Host,
            &Document::new(),
            &RenderOptions::default(),
            &Limits::default(),
            RenderExtras::default(),
        )
        .unwrap_err();
    assert_eq!(e.code(), "template");
    assert!(e.to_string().starts_with("template render document: "), "{}", e.to_string());
}

#[test]
fn a_cut_never_splits_a_character() {
    let mut warnings: Vec<Warning> = Vec::new();
    assert_eq!(truncate_at_line("ééé", 3, &mut warnings), "é\n");
    assert_eq!(warnings[0].message, "templated output reached max_output_bytes (3)");
    assert_eq!(truncate_at_line("ok  \n\n", 9, &mut warnings), "ok\n");
    assert_eq!(warnings.len(), 1);
}

#[test]
fn the_first_unknown_block_in_the_order_of_names_is_reported() {
    let blocks = vec![
        ("zeta".to_owned(), String::new()),
        ("table".to_owned(), String::new()),
        ("al\"pha".to_owned(), String::new()),
    ];
    let e = validate_block_names(&blocks).unwrap_err();
    assert!(
        e.to_string().starts_with("template validate: unknown block template \"al\\\"pha\" (known: "),
        "{}",
        e.to_string()
    );
}

#[test]
fn a_table_renders_outside_a_document() {
    let t = Table {
        caption: None,
        header: Some(vec![Inline::text("a"), Inline::text("b")]),
        rows: vec![vec![Inline::text("1|2"), Inline::text("x\ny")]],
    };
    assert_eq!(gfm_table(&t), "| a | b |\n| --- | --- |\n| 1\\|2 | x<br>y |\n");
}

// --- errors -----------------------------------------------------------------

#[test]
fn an_unknown_format_name_is_quoted_in_the_error() {
    let options = ConvertOptions {
        formats: FormatSelection { enable: Some(vec!["no\"pe".to_owned()]) },
        ..ConvertOptions::default()
    };
    let e = Engine::new(options, Broken).err().expect("refused");
    assert!(
        e.to_string().starts_with(
            "invalid input: formats.enable names \"no\\\"pe\", which is not a converter in this build (available: "
        ),
        "{}",
        e.to_string()
    );
}

#[test]
fn no_format_at_all_is_refused() {
    let options = ConvertOptions {
        formats: FormatSelection { enable: Some(vec![]) },
        ..ConvertOptions::default()
    };
    let e = Engine::new(options, Broken).err().expect("refused");
    assert_eq!(e.to_string(), "invalid input: formats.enable left no converters registered");
}

#[test]
fn an_oversized_input_is_refused() {
    let options = ConvertOptions {
        limits: Limits { max_input_bytes: 3, ..Limits::default() },
        ..ConvertOptions::default()
    };
    let e = Engine::new(options, Broken)
        .expect("builds")
        .convert(b"abcd", &StreamInfo::new())
        .unwrap_err();
    assert_eq!(e.to_string(), "limit exceeded: max_input_bytes (4 > 3)");
}

#[test]
fn errors_have_a_code_and_a_sentence() {
    let cases: Vec<(ConvertError, &str, &str)> = vec![
        (
            ConvertError::Unsupported { tried: "a, b".into() },
            "unsupported",
            "unsupported format (tried: a, b)",
        ),
        (
            ConvertError::Malformed { format: "zip", message: "m".into() },
            "malformed",
            "zip: malformed input — m",
        ),
        (
            ConvertError::Encrypted { format: "pdf" },
            "encrypted",
            "pdf: input is encrypted or password-protected",
        ),
        (
            ConvertError::LimitExceeded { limit: "max_depth", actual: 4, allowed: 3 },
            "limit_exceeded",
            "limit exceeded: max_depth (4 > 3)",
        ),
        (
            ConvertError::ConverterPanic { format: "pdf" },
            "panic",
            "pdf: converter panicked",
        ),
        (
            ConvertError::Template { stage: "compile", message: "m".into() },
            "template",
            "template compile: m",
        ),
        (ConvertError::InvalidInput("x".into()), "invalid_input", "invalid input: x"),
    ];
    for (e, code, sentence) in cases {
        assert_eq!(e.code(), code);
        assert_eq!(e.to_string(), sentence);
    }
    assert_eq!(WarningKind::NoTextLayer.as_str(), "no_text_layer");
    assert_eq!(WarningKind::EnrichmentFailed.as_str(), "enrichment_failed");
}

//! What rendering, detection and the engine promise, each on one input.

use mcpg_markdown_convert::converters::media::AudioRead;
use mcpg_markdown_convert::converters::pdf::PdfFile;
use mcpg_markdown_convert::converters::sheet::Sheet;
use mcpg_markdown_convert::converters::zip::ZipConverter;
use mcpg_markdown_convert::render::{inline_cell, render, render_block};
use mcpg_markdown_convert::template::gfm_table;
use mcpg_markdown_convert::{Block, Budget, ConvertCx, ConvertError, ConvertOptions, Converter};
use mcpg_markdown_convert::{ConverterRegistry, Document, Engine, Extracted, Extractor};
use mcpg_markdown_convert::{FormatSelection, FrontMatter, Inline, Limits, Probe, RenderExtras};
use mcpg_markdown_convert::{RenderOptions, Signal, Span, StreamInfo, Table, TableStyle, TemplateSpec};
use mcpg_markdown_convert::{Templates, WarningKind, detect};
use mcpg_markdown_convert::{Parsed, Written};
use std::io::{Cursor, Write};

/// Fails on every file; templates run as they are.
#[derive(Clone, Copy)]
struct Fails;

impl Extractor for Fails {
    fn pdf_file(&self, _bytes: &[u8]) -> Extracted<PdfFile> {
        Extracted::Panicked
    }

    fn pdf_pages(&self, _bytes: &[u8]) -> Extracted<Vec<String>> {
        Extracted::Panicked
    }

    fn sheets(&self, _bytes: &[u8]) -> Extracted<Vec<Sheet>> {
        Extracted::Panicked
    }

    fn markdown(&self, _html: &str) -> Extracted<String> {
        Extracted::Panicked
    }

    fn audio(&self, _bytes: &[u8]) -> Extracted<AudioRead> {
        Extracted::Panicked
    }

    fn add_template(
        &self,
        env: &mut minijinja::Environment<'static>,
        name: &str,
        source: &str,
    ) -> Parsed {
        match env.add_template_owned(name.to_owned(), source.to_owned()) {
            Ok(()) => Parsed::Sound,
            Err(e) => Parsed::Faulty(e.to_string()),
        }
    }

    fn write(
        &self,
        env: &minijinja::Environment<'static>,
        name: &str,
        context: &serde_json::Value,
    ) -> Written {
        match env.get_template(name) {
            Err(e) => Written::Missing(e.to_string()),
            Ok(t) => match t.render(context) {
                Ok(s) => Written::Text(s),
                Err(e) => Written::Failed(e.to_string()),
            },
        }
    }
}

/// Panics in every template.
#[derive(Clone, Copy)]
struct Panics;

impl Extractor for Panics {
    fn pdf_file(&self, _bytes: &[u8]) -> Extracted<PdfFile> {
        Extracted::Panicked
    }

    fn pdf_pages(&self, _bytes: &[u8]) -> Extracted<Vec<String>> {
        Extracted::Panicked
    }

    fn sheets(&self, _bytes: &[u8]) -> Extracted<Vec<Sheet>> {
        Extracted::Panicked
    }

    fn markdown(&self, _html: &str) -> Extracted<String> {
        Extracted::Panicked
    }

    fn audio(&self, _bytes: &[u8]) -> Extracted<AudioRead> {
        Extracted::Panicked
    }

    fn add_template(
        &self,
        _env: &mut minijinja::Environment<'static>,
        _name: &str,
        _source: &str,
    ) -> Parsed {
        Parsed::Panicked
    }

    fn write(
        &self,
        _env: &minijinja::Environment<'static>,
        _name: &str,
        _context: &serde_json::Value,
    ) -> Written {
        Written::Panicked
    }
}

fn doc_of(blocks: Vec<Block>) -> Document {
    Document { blocks, ..Document::default() }
}

fn only(names: &[&str]) -> ConvertOptions {
    ConvertOptions {
        formats: FormatSelection { enable: Some(names.iter().map(|n| (*n).to_owned()).collect()) },
        ..ConvertOptions::default()
    }
}

// --- rendering --------------------------------------------------------------

#[test]
fn a_table_outside_a_document_is_escaped_like_one_inside() {
    let t = Table {
        caption: None,
        header: Some(vec![Inline::text("a")]),
        rows: vec![vec![Inline::text("*x*")]],
    };
    assert_eq!(gfm_table(&t), "| a |\n| --- |\n| \\*x\\* |\n");
    let out = render(&doc_of(vec![Block::Table(t)]), &RenderOptions::default(), &Limits::default());
    assert_eq!(out.markdown, "| a |\n| --- |\n| \\*x\\* |\n");
}

#[test]
fn what_is_dropped_inside_a_quote_is_reported() {
    let html = Block::RawHtml { html: "<b>x</b>".into() };
    let doc = doc_of(vec![Block::Quote(vec![html])]);
    let out = render(&doc, &RenderOptions::default(), &Limits::default());
    assert_eq!(out.warnings.len(), 1);
    assert_eq!(out.warnings[0].kind, WarningKind::Degraded);
    assert!(!out.markdown.contains("<b>"), "{}", out.markdown);
}

#[test]
fn the_heading_of_an_embedded_document_is_moved_with_the_others() {
    let b = Block::Embedded { name: "a.txt".into(), doc: Box::new(Document::new()) };
    let opts = RenderOptions { heading_offset: 2, ..RenderOptions::default() };
    let out = render(&doc_of(vec![b]), &opts, &Limits::default());
    assert_eq!(out.markdown, "#### a.txt\n");
}

#[test]
fn blank_lines_of_verbatim_text_stay() {
    let raw = Block::Raw { markdown: "a\n\n\nb".into() };
    let out = render(&doc_of(vec![raw]), &RenderOptions::default(), &Limits::default());
    assert_eq!(out.markdown, "a\n\n\nb\n");
    assert!(out.warnings.is_empty());
    let code = Block::Code { language: None, text: "a\n\n\n\nb".into() };
    let out = render(&doc_of(vec![code]), &RenderOptions::default(), &Limits::default());
    assert_eq!(out.markdown, "```\na\n\n\n\nb\n```\n");
}

#[test]
fn a_code_block_is_there_as_a_whole_or_not_at_all() {
    let doc = doc_of(vec![Block::Code { language: None, text: "aaaa\nbbbb".into() }]);
    let l = Limits { max_output_bytes: 10, ..Limits::default() };
    let out = render(&doc, &RenderOptions::default(), &l);
    assert_eq!(out.markdown, "\n");
    assert_eq!(out.warnings.len(), 1);
    assert_eq!(out.warnings[0].kind, WarningKind::Truncated);
}

#[test]
fn a_line_break_in_a_cell_stays_in_its_row() {
    let i = Inline(vec![Span::Text("a".into()), Span::LineBreak, Span::Text("b".into())]);
    assert_eq!(inline_cell(&i), "a<br>b");
    let nested = Inline::of(Span::Strong(i));
    assert_eq!(inline_cell(&nested), "**a<br>b**");
}

#[test]
fn a_block_reads_alike_on_its_own() {
    let b = Block::Paragraph(Inline::text("one *two*"));
    let opts = RenderOptions::default();
    let alone = render_block(&b, &opts, &Limits::default());
    let whole = render(&doc_of(vec![b]), &opts, &Limits::default()).markdown;
    assert_eq!(alone.trim_end(), whole.trim_end());
}

#[test]
fn block_templates_alone_keep_the_front_matter() {
    let spec = TemplateSpec {
        document: None,
        blocks: vec![("rule".to_owned(), "***".to_owned())],
    };
    let mut doc = Document::new().with_title("T");
    doc.push(Block::Rule);
    let opts = RenderOptions { front_matter: FrontMatter::Yaml, ..RenderOptions::default() };
    let out = Templates::compile(&spec, &Fails)
        .expect("compiles")
        .render(&Fails, &doc, &opts, &Limits::default(), RenderExtras::default())
        .expect("renders");
    assert_eq!(out.markdown, "---\ntitle: \"T\"\n---\n\n***\n");
}

#[test]
fn a_template_that_prints_its_state_changes_nothing_else() {
    let spec = TemplateSpec {
        document: None,
        blocks: vec![("rule".to_owned(), "{% if debug() %}yes{% endif %}".to_owned())],
    };
    let t = Templates::compile(&spec, &Fails).expect("compiles");
    let doc = doc_of(vec![Block::Paragraph(Inline::text("a")), Block::Rule]);
    let opts = RenderOptions::default();
    let out = t.render(&Fails, &doc, &opts, &Limits::default(), RenderExtras::default()).expect("renders");
    assert_eq!(out.markdown, "a\n\nyes\n");
}

#[test]
fn a_document_has_no_two_blank_lines_in_a_row() {
    let code = Inline(vec![Span::Code("a\n\n\n\nb".to_owned())]);
    let doc = doc_of(vec![Block::Paragraph(code)]);
    let out = render(&doc, &RenderOptions::default(), &Limits::default());
    assert_eq!(out.markdown, "`a\n\nb`\n");
    let alone = render_block(&doc.blocks[0], &RenderOptions::default(), &Limits::default());
    assert_eq!(alone.trim_end(), "`a\n\n\n\nb`");

    let t = Table { caption: None, header: None, rows: vec![vec![Inline::text("x\n\n\ny")]] };
    let opts = RenderOptions { tables: TableStyle::Html, ..RenderOptions::default() };
    let out = render(&doc_of(vec![Block::Table(t)]), &opts, &Limits::default());
    assert!(out.markdown.contains("<td>x\n\ny</td>"), "{}", out.markdown);

    let mut doc = Document::new();
    doc.metadata.extra.push(("a\n\n\nb".to_owned(), "v".to_owned()));
    let opts = RenderOptions { front_matter: FrontMatter::Yaml, ..RenderOptions::default() };
    let out = render(&doc, &opts, &Limits::default());
    assert_eq!(out.markdown, "---\n\"a\n\nb\": \"v\"\n---\n");
}

#[test]
fn what_is_written_as_it_is_keeps_its_blank_lines() {
    let blocks = vec![
        Block::Raw { markdown: "a\n\n\nb".to_owned() },
        Block::Code { language: None, text: "c\n\n\nd".to_owned() },
        Block::List {
            ordered: false,
            items: vec![vec![Block::Raw { markdown: "e\n\n\nf".to_owned() }]],
        },
    ];
    let out = render(&doc_of(blocks), &RenderOptions::default(), &Limits::default());
    let want = "a\n\n\nb\n\n```\nc\n\n\nd\n```\n\n- e\n\n\n  f\n";
    assert_eq!(out.markdown, want);
}

#[test]
fn line_feeds_that_are_left_out_count_against_the_cap() {
    let code = Inline(vec![Span::Code("a\n\n\nb".to_owned())]);
    let doc = doc_of(vec![Block::Paragraph(code)]);
    let cap = |max_output_bytes: u64| Limits { max_output_bytes, ..Limits::default() };
    let whole = render(&doc, &RenderOptions::default(), &cap(9));
    assert_eq!(whole.markdown, "`a\n\nb`\n");
    let cut = render(&doc, &RenderOptions::default(), &cap(7));
    assert_eq!(cut.markdown, "\n");
    assert_eq!(cut.warnings[0].kind, WarningKind::Truncated);
}

#[test]
fn a_cell_stays_a_cell_whatever_it_holds() {
    let code = Inline(vec![Span::Code("a|b\r\nc".to_owned())]);
    assert_eq!(inline_cell(&code), "`a\\|b<br>c`");
    let disarmed = Inline(vec![Span::Code("a\\|b".to_owned())]);
    assert_eq!(inline_cell(&disarmed), "`a\\|b`");
    let link = Inline(vec![Span::Link { text: Inline::text("t"), href: "u|v".to_owned() }]);
    assert_eq!(inline_cell(&link), "[t](u\\|v)");
    let bare = Inline(vec![Span::Link { text: Inline::text(" "), href: "u|v".to_owned() }]);
    assert_eq!(inline_cell(&bare), "[u\\|v](u\\|v)");
    let row = Table { caption: None, header: None, rows: vec![vec![code, link]] };
    let out = render(&doc_of(vec![Block::Table(row)]), &RenderOptions::default(), &Limits::default());
    assert_eq!(out.markdown.lines().last(), Some("| `a\\|b<br>c` | [t](u\\|v) |"));
    assert_eq!(out.markdown.lines().count(), 3);
}

#[test]
fn a_template_that_panics_is_an_error() {
    let spec = TemplateSpec { document: Some("{{ body }}".to_owned()), blocks: vec![] };
    let e = Templates::compile(&spec, &Panics).err().unwrap();
    assert_eq!(e.to_string(), "template parse document: the parser panicked");
    let t = Templates::compile(&spec, &Fails).expect("compiles");
    let doc = doc_of(vec![Block::Rule]);
    let e = t
        .render(&Panics, &doc, &RenderOptions::default(), &Limits::default(), RenderExtras::default())
        .unwrap_err();
    assert_eq!(e.code(), "template");
    assert_eq!(e.to_string(), "template render document: the template panicked");
}

// --- detection --------------------------------------------------------------

#[test]
fn the_callers_own_view_is_the_last_guess() {
    let base = StreamInfo::new().with_filename("x.csv");
    let d = detect(b"a,b\n", &base);
    let want = base.clone().with_mimetype("text/csv");
    assert!(d.guesses[0] == want, "{:?}", d.guesses[0]);
    assert_eq!(d.leading_signal, Signal::Extension);
    assert_eq!(d.mismatch, None);
    assert!(d.guesses.last() == Some(&base), "{:?}", d.guesses);
    assert_eq!(d.guesses.len(), d.signals.len());
}

#[test]
fn text_is_utf8() {
    assert!(!Probe::new(&[0xC3, 0x28]).looks_textual());
    assert!(Probe::new("é".as_bytes()).looks_textual());
}

// --- the engine -------------------------------------------------------------

struct Named(&'static str, i32);

impl Converter for Named {
    fn name(&self) -> &'static str {
        self.0
    }

    fn priority(&self) -> i32 {
        self.1
    }

    fn accepts(&self, _probe: &Probe<'_>, _info: &StreamInfo) -> bool {
        true
    }

    fn convert(
        &self,
        _bytes: &[u8],
        _info: &StreamInfo,
        _cx: &mut ConvertCx<'_>,
    ) -> Result<Document, ConvertError> {
        Ok(Document::new())
    }
}

#[test]
fn what_is_registered_behind_an_allowlist_comes_first() {
    let mut r = ConverterRegistry::new();
    r.register(Named("csv", 0));
    r.register(Named("json", 0));
    r.register(Named("text", 100));
    let mut e = Engine::with_registry(r, only(&["json"]), Fails).expect("builds");
    e.register(Named("c", 0));
    assert_eq!(e.converter_names(), vec!["c", "json"]);
}

#[test]
fn a_result_names_what_its_guess_rests_on() {
    let e = Engine::new(only(&["text"]), Fails).expect("builds");
    let info = StreamInfo::new().with_filename("notes.txt");
    let out = e.convert(b"%PDF-1.4 broken", &info).expect("converts");
    assert_eq!(out.converter, "text");
    assert!(out.warnings.iter().any(|w| w.kind == WarningKind::TypeMismatch), "{:?}", out.warnings);
    assert_eq!(out.detected_via, "extension");
}

#[test]
fn converting_is_converting_and_then_rendering() {
    let e = Engine::new(ConvertOptions::default(), Fails).expect("builds");
    let info = StreamInfo::new().with_filename("p.csv");
    let bytes = b"name,age\nada,36\n";
    let mut b = Budget::new(Limits::default());
    let mut cx = ConvertCx::new(&mut b);
    let (doc, name, via) = e.convert_to_ir(bytes, &info, &mut cx).expect("converts");
    let extras = RenderExtras { source: Some(&info), now: None };
    let text = e.render_document_with(&doc, extras).expect("renders");
    let whole = e.convert(bytes, &info).expect("converts");
    assert_eq!(whole.markdown, text.markdown);
    assert_eq!((whole.converter, whole.detected_via), (name, via));
    assert_eq!(format!("{:?}", whole.document), format!("{doc:?}"));
}

// --- archives ---------------------------------------------------------------

fn unzip(bytes: &[u8], limits: Limits) -> Result<Document, ConvertError> {
    let mut b = Budget::new(limits);
    let mut cx = ConvertCx::new(&mut b);
    ZipConverter(Fails).convert(bytes, &StreamInfo::new().with_extension("zip"), &mut cx)
}

fn empty_archive() -> Vec<u8> {
    let mut v = b"PK\x05\x06".to_vec();
    v.extend_from_slice(&[0; 18]);
    v
}

#[test]
fn an_archive_at_the_depth_limit_is_not_entered() {
    let doc = unzip(&empty_archive(), Limits { max_depth: 0, ..Limits::default() }).expect("converts");
    assert!(doc.blocks.is_empty());
    assert_eq!(doc.title, None);
    assert_eq!(doc.warnings.len(), 1);
    assert_eq!(doc.warnings[0].kind, WarningKind::SkippedMember);
    assert_eq!(
        doc.warnings[0].message,
        "nested archive not expanded: max_depth (0) reached"
    );
}

#[test]
fn time_matters_only_where_there_is_a_member() {
    let none = Limits { timeout_ms: 0, ..Limits::default() };
    let doc = unzip(&empty_archive(), none.clone()).expect("converts");
    assert_eq!(doc.warnings[0].message, "the archive contained no convertible members");
    assert_eq!(unzip(b"PK\x03\x04 nothing", none).unwrap_err().code(), "malformed");
}

#[test]
fn a_member_whose_extractor_panics_is_skipped_with_a_warning() {
    let mut bytes = Vec::new();
    let mut w = zip::ZipWriter::new(Cursor::new(&mut bytes));
    let opts: zip::write::FileOptions<'_, ()> = zip::write::FileOptions::default();
    w.start_file("a.mp3", opts).unwrap();
    w.write_all(&[0xFF, 0xFB, 0x00, 0x01]).unwrap();
    w.start_file("b.txt", opts).unwrap();
    w.write_all(b"still here").unwrap();
    w.finish().unwrap();
    let doc = unzip(&bytes, Limits::default()).expect("converts");
    assert_eq!(doc.warnings.len(), 1);
    assert_eq!(doc.warnings[0].kind, WarningKind::SkippedMember);
    assert_eq!(doc.warnings[0].message, "a.mp3: audio: converter panicked");
    assert!(matches!(&doc.blocks[..], [Block::Embedded { name, .. }] if name == "b.txt"));
}

//! The library's laws, each on concrete values.

use mcpg_markdown_convert::converters::builtin::{Builtin, Kind, builtin_registry};
use mcpg_markdown_convert::converters::csv::CsvConverter;
use mcpg_markdown_convert::converters::epub::normalise;
use mcpg_markdown_convert::converters::html::strip_non_prose;
use mcpg_markdown_convert::converters::media::AudioRead;
use mcpg_markdown_convert::converters::pdf::{PdfFile, convert_pages, heading_shape};
use mcpg_markdown_convert::converters::sheet::{Cell, Sheet, convert_sheets};
use mcpg_markdown_convert::converters::squeeze;
use mcpg_markdown_convert::converters::xml::read_events;
use mcpg_markdown_convert::converters::zip::ZipConverter;
use mcpg_markdown_convert::ir::sanitize_member_name;
use mcpg_markdown_convert::registry::ConverterRegistry;
use mcpg_markdown_convert::render::{escape_text, render};
use mcpg_markdown_convert::template::{known_block_templates, truncate_at_line};
use mcpg_markdown_convert::{Block, Budget, ConvertCx, ConvertError, ConvertOptions, Converter};
use mcpg_markdown_convert::{Document, Engine, Extracted, Extractor, FrontMatter, Inline, Limits};
use mcpg_markdown_convert::{Probe, RenderOptions, Signal, Span, StreamInfo, Table, TemplateSpec};
use mcpg_markdown_convert::{FormatSelection, RenderExtras, Templates, Warning, WarningKind, detect};
use mcpg_markdown_convert::{Parsed, Written};
use std::io::{Cursor, Write};

/// Hands back what it was given, whatever the bytes are.
#[derive(Clone, Copy)]
struct Fixed(&'static [&'static str]);

impl Extractor for Fixed {
    fn pdf_file(&self, _bytes: &[u8]) -> Extracted<PdfFile> {
        Extracted::Failed("no file".to_owned())
    }

    fn markdown(&self, html: &str) -> Extracted<String> {
        Extracted::Ready(html.to_owned())
    }

    fn audio(&self, _bytes: &[u8]) -> Extracted<AudioRead> {
        Extracted::Panicked
    }

    fn pdf_pages(&self, _bytes: &[u8]) -> Extracted<Vec<String>> {
        Extracted::Ready(self.0.iter().map(|p| (*p).to_owned()).collect())
    }

    fn sheets(&self, _bytes: &[u8]) -> Extracted<Vec<Sheet>> {
        Extracted::Panicked
    }

    fn add_template(
        &self,
        env: &mut minijinja::Environment<'static>,
        name: &str,
        source: &str,
    ) -> Parsed {
        match env.add_template_owned(name.to_owned(), source.to_owned()) {
            Ok(()) => Parsed::Sound,
            Err(e) => Parsed::Faulty(e.to_string()),
        }
    }

    fn write(
        &self,
        env: &minijinja::Environment<'static>,
        name: &str,
        context: &serde_json::Value,
    ) -> Written {
        match env.get_template(name) {
            Err(e) => Written::Missing(e.to_string()),
            Ok(t) => match t.render(context) {
                Ok(s) => Written::Text(s),
                Err(e) => Written::Failed(e.to_string()),
            },
        }
    }
}

fn doc_of(blocks: Vec<Block>) -> Document {
    Document { blocks, ..Document::default() }
}

fn para(s: &str) -> Block {
    Block::Paragraph(Inline::text(s))
}

fn limits(max_output_bytes: u64) -> Limits {
    Limits { max_output_bytes, ..Limits::default() }
}

fn md(blocks: Vec<Block>) -> String {
    render(&doc_of(blocks), &RenderOptions::default(), &Limits::default()).markdown
}

fn zip_of(parts: &[(&str, &[u8])]) -> Vec<u8> {
    let mut buf = Vec::new();
    let mut w = zip::ZipWriter::new(Cursor::new(&mut buf));
    let opts: zip::write::FileOptions<'_, ()> = zip::write::FileOptions::default()
        .compression_method(zip::CompressionMethod::Deflated);
    for (name, body) in parts {
        w.start_file(*name, opts).unwrap();
        w.write_all(body).unwrap();
    }
    w.finish().unwrap();
    buf
}

fn unzip(bytes: &[u8], limits: Limits) -> Document {
    let mut b = Budget::new(limits);
    let mut cx = ConvertCx::new(&mut b);
    ZipConverter(Fixed(&[]))
        .convert(bytes, &StreamInfo::new().with_extension("zip"), &mut cx)
        .expect("converts")
}

fn member_names(doc: &Document) -> Vec<&str> {
    doc.blocks
        .iter()
        .filter_map(|b| match b {
            Block::Embedded { name, .. } => Some(name.as_str()),
            _ => None,
        })
        .collect()
}

fn engine() -> Engine<Builtin<Fixed>, Fixed> {
    Engine::new(ConvertOptions::default(), Fixed(&[])).expect("builds")
}

// --- rendering --------------------------------------------------------------

#[test]
fn output_ends_with_exactly_one_newline() {
    let out = md(vec![para("a"), Block::Raw { markdown: "b\n\n\n\nc\n\n\n".into() }]);
    assert_eq!(out, "a\n\nb\n\n\n\nc\n");
    assert_eq!(md(vec![]), "\n");
}

#[test]
fn output_stays_within_its_cap() {
    let blocks: Vec<Block> = (0..50).map(|i| para(&format!("line {i}"))).collect();
    for max in [0u64, 1, 7, 8, 9, 100] {
        let out = render(&doc_of(blocks.clone()), &RenderOptions::default(), &limits(max));
        assert!(out.markdown.len() as u64 <= max + 1, "{max}: {:?}", out.markdown);
    }
}

#[test]
fn headings_have_a_level_from_one_to_six() {
    let h = |level: u8| Block::Heading { level, text: Inline::text("t") };
    assert_eq!(md(vec![h(0)]), "# t\n");
    assert_eq!(md(vec![h(6)]), "###### t\n");
    assert_eq!(md(vec![h(200)]), "###### t\n");
}

#[test]
fn headings_of_an_embedded_document_rank_below_its_own() {
    let inner = doc_of(vec![Block::Heading { level: 1, text: Inline::text("t") }]);
    let out = md(vec![Block::Embedded { name: "m".into(), doc: Box::new(inner) }]);
    assert_eq!(out, "## m\n\n### t\n");
}

#[test]
fn a_fence_is_longer_than_any_run_in_its_body() {
    let out = md(vec![Block::Code { language: None, text: "a ```` b".into() }]);
    assert_eq!(out, "`````\na ```` b\n`````\n");
}

fn undo_backslashes(s: &str) -> String {
    let mut out = String::new();
    let mut pending = false;
    for c in s.chars() {
        if !pending && c == '\\' {
            pending = true;
        } else {
            out.push(c);
            pending = false;
        }
    }
    assert!(!pending);
    out
}

#[test]
fn escaped_text_comes_back_when_its_backslashes_are_undone() {
    let s = "# a_b *c* [d](e) `f` <g> h|i \\ 1. _x_\r\nnext";
    let e = escape_text(s);
    assert_eq!(e, "\\# a_b \\*c\\* \\[d\\](e) \\`f\\` \\<g\\> h\\|i \\\\ 1. \\_x\\_ next");
    assert_eq!(undo_backslashes(&e), s.replace('\r', "").replace('\n', " "));
}

#[test]
fn front_matter_values_do_not_leave_their_quotes() {
    let doc = Document {
        title: Some("a \"b\" \\ c\r\n---\nevil: yes".into()),
        ..Document::default()
    };
    let opts = RenderOptions { front_matter: FrontMatter::Yaml, ..RenderOptions::default() };
    let out = render(&doc, &opts, &Limits::default()).markdown;
    assert_eq!(out, "---\ntitle: \"a \\\"b\\\" \\\\ c  --- evil: yes\"\n---\n");
}

#[test]
fn rows_have_as_many_cells_as_the_table_is_wide() {
    let t = Table {
        caption: None,
        header: Some(vec![Inline::text("h")]),
        rows: vec![
            vec![Inline::text("a|b"), Inline::of(Span::Strong(Inline::text("c|d")))],
            vec![],
        ],
    };
    assert_eq!(t.width(), 2);
    assert_eq!(
        md(vec![Block::Table(t)]),
        "| h |  |\n| --- | --- |\n| a\\|b | **c\\|d** |\n|  |  |\n"
    );
}

// --- nothing is lost in silence ---------------------------------------------

#[test]
fn what_is_not_reported_as_cut_is_whole() {
    let blocks: Vec<Block> = vec![
        Block::Heading { level: 1, text: Inline::text("T") },
        para("one"),
        Block::List { ordered: true, items: vec![vec![para("x")], vec![para("y")]] },
        Block::Table(Table {
            caption: None,
            header: Some(vec![Inline::text("h")]),
            rows: vec![vec![Inline::text("1")], vec![Inline::text("2")]],
        }),
        para("end"),
    ];
    let doc = doc_of(blocks);
    let opts = RenderOptions::default();
    let whole = render(&doc, &opts, &Limits::default());
    assert!(whole.warnings.is_empty());
    for max in 0..whole.markdown.len() as u64 + 4 {
        let out = render(&doc, &opts, &limits(max));
        let cut = out.warnings.iter().any(|w| w.kind == WarningKind::Truncated);
        assert!(cut || out.markdown == whole.markdown, "{max}: {:?}", out.markdown);
        if cut {
            assert_eq!(
                out.warnings.last().unwrap().message,
                format!("output reached max_output_bytes ({max}) and was cut at a block boundary")
            );
        }
    }
}

#[test]
fn an_oversized_list_item_is_reported() {
    let item = vec![para("short"), para("a paragraph that does not fit the cap")];
    let doc = doc_of(vec![Block::List { ordered: false, items: vec![item] }]);
    let out = render(&doc, &RenderOptions::default(), &limits(20));
    assert!(!out.markdown.contains("does not fit"), "{}", out.markdown);
    assert!(out.warnings.iter().any(|w| w.kind == WarningKind::Truncated), "{:?}", out.warnings);
}

#[test]
fn rows_left_out_of_an_embedded_table_are_reported() {
    let t = Table {
        caption: None,
        header: None,
        rows: vec![vec![Inline::text("1")], vec![Inline::text("2")], vec![Inline::text("3")]],
    };
    let inner = doc_of(vec![Block::Table(t), Block::RawHtml { html: "<b>".into() }]);
    let doc = doc_of(vec![Block::Embedded { name: "m".into(), doc: Box::new(inner) }]);
    let l = Limits { max_table_rows: 2, ..Limits::default() };
    let opts = RenderOptions { preserve_unsupported_html: false, ..RenderOptions::default() };
    let out = render(&doc, &opts, &l);
    let messages: Vec<&str> = out.warnings.iter().map(|w| w.message.as_str()).collect();
    assert_eq!(
        messages,
        vec![
            "table truncated to 2 of 3 rows (max_table_rows)",
            "dropped an HTML fragment Markdown cannot express (preserve_unsupported_html is off)",
        ]
    );
    assert!(out.markdown.ends_with("_… 1 further rows omitted_\n"), "{}", out.markdown);
}

// --- archives ---------------------------------------------------------------

#[test]
fn every_member_is_shown_or_named_in_a_warning() {
    let bytes = zip_of(&[
        ("a.txt", b"alpha"),
        ("d/", b""),
        ("b.bin", &[0u8, 1, 2, 255, 0, 7]),
        ("..\\c\u{7}.txt", b"gamma"),
    ]);
    let doc = unzip(&bytes, Limits::default());
    assert_eq!(member_names(&doc), vec!["a.txt", "c.txt"]);
    assert_eq!(doc.warnings.len(), 1);
    assert_eq!(doc.warnings[0].kind, WarningKind::SkippedMember);
    assert!(doc.warnings[0].message.starts_with("b.bin: "), "{}", doc.warnings[0].message);
}

#[test]
fn the_member_limit_caps_the_embedded_documents() {
    let bytes = zip_of(&[("a.txt", b"1"), ("b.txt", b"2"), ("c.txt", b"3")]);
    let l = Limits { max_embedded_documents: 2, ..Limits::default() };
    let doc = unzip(&bytes, l);
    assert_eq!(member_names(&doc), vec!["a.txt", "b.txt"]);
    assert_eq!(
        doc.warnings.last().unwrap().message,
        "stopped after 2 members (max_embedded_documents)"
    );
}

#[test]
fn a_spent_budget_admits_no_member() {
    let bytes = zip_of(&[("a.txt", b"12345"), ("b.txt", b"67890")]);
    let l = Limits { max_expanded_bytes: 5, ..Limits::default() };
    let doc = unzip(&bytes, l);
    assert_eq!(member_names(&doc), vec!["a.txt"]);
    assert_eq!(
        doc.warnings.last().unwrap().message,
        "expansion budget exhausted; remaining members skipped"
    );
}

#[test]
fn archives_are_not_entered_below_the_depth_limit() {
    let inner = zip_of(&[("x.txt", b"deep")]);
    let outer = zip_of(&[("inner.zip", &inner)]);
    let l = Limits { max_depth: 1, ..Limits::default() };
    let doc = unzip(&outer, l);
    assert_eq!(member_names(&doc), vec!["inner.zip"]);
    assert_eq!(
        doc.warnings.last().unwrap().message,
        "nested archive not expanded: max_depth (1) reached"
    );
}

#[test]
fn a_member_converts_as_it_would_alone() {
    let csv = b"name,age\nada,36\n";
    let mut b = Budget::new(Limits::default());
    let mut cx = ConvertCx::new(&mut b);
    let info = StreamInfo::new().with_filename("p.csv");
    let (alone, name, _) = engine().convert_to_ir(csv, &info, &mut cx).expect("converts");
    assert_eq!(name, "csv");
    let doc = unzip(&zip_of(&[("p.csv", csv)]), Limits::default());
    match &doc.blocks[0] {
        Block::Embedded { name, doc } => {
            assert_eq!(name, "p.csv");
            assert_eq!(format!("{:?}", doc.blocks), format!("{:?}", alone.blocks));
        }
        other => panic!("{other:?}"),
    }
}

#[test]
fn sanitised_names_hold_nothing_dangerous() {
    assert_eq!(sanitize_member_name("C:\\a\\..\\b.txt"), "C/a/b.txt");
    assert_eq!(sanitize_member_name("/../..//"), "unnamed");
    assert_eq!(sanitize_member_name("a\u{0}/./b\n"), "a/b");
    assert_eq!(sanitize_member_name("..:x/a"), "a");
    assert_eq!(sanitize_member_name(".\u{7}./.:/:"), "unnamed");
    for raw in ["..:x/a", "C:\\a\\..\\b.txt", "\u{1}", "a//b/.\u{0}"] {
        let once = sanitize_member_name(raw);
        assert_eq!(sanitize_member_name(&once), once);
        assert!(once.split('/').all(|seg| !seg.is_empty() && seg != "." && seg != ".."), "{once}");
    }
}

// --- the engine -------------------------------------------------------------

#[test]
fn what_nothing_accepts_is_unsupported() {
    let e = engine().convert(&[0u8, 159, 146, 150, 0, 1], &StreamInfo::new()).unwrap_err();
    assert_eq!(e.code(), "unsupported");
}

#[test]
fn a_result_names_a_converter_that_accepts_the_input() {
    let bytes = b"{\"a\": 1}";
    let out = engine().convert(bytes, &StreamInfo::new().with_extension("json")).expect("json");
    let own = builtin_registry(Fixed(&[]));
    let all = own.iter();
    let c = all.iter().find(|c| c.name() == out.converter).expect("registered");
    let guesses = detect(bytes, &StreamInfo::new().with_extension("json")).guesses;
    assert!(guesses.iter().any(|g| c.accepts(&Probe::new(bytes), g)));
}

#[test]
fn a_wrong_label_is_reported_to_the_caller() {
    let info = StreamInfo::new().with_mimetype("image/png");
    let out = engine().convert(&zip_of(&[("a.txt", b"hi")]), &info).expect("converts");
    assert_eq!(out.converter, "zip");
    assert!(out.warnings.iter().any(|w| w.kind == WarningKind::TypeMismatch), "{:?}", out.warnings);
    let n = out.document.warnings.len();
    assert_eq!(out.warnings[..n], out.document.warnings[..]);
}

#[test]
fn formats_come_in_order_of_priority() {
    let own = builtin_registry(Fixed(&[]));
    let all = own.iter();
    assert_eq!(all.len(), 16);
    assert!(all.windows(2).all(|w| w[0].priority() <= w[1].priority()));
    assert!(all[0].kind == Kind::Ipynb && all[15].kind == Kind::Text);
}

struct Named(&'static str, i32);

impl Converter for Named {
    fn name(&self) -> &'static str {
        self.0
    }

    fn priority(&self) -> i32 {
        self.1
    }

    fn accepts(&self, _probe: &Probe<'_>, _info: &StreamInfo) -> bool {
        false
    }

    fn convert(
        &self,
        _bytes: &[u8],
        _info: &StreamInfo,
        _cx: &mut ConvertCx<'_>,
    ) -> Result<Document, ConvertError> {
        Err(ConvertError::InvalidInput("never accepts".into()))
    }
}

#[test]
fn the_latest_registration_comes_first_among_equals() {
    let mut r = ConverterRegistry::new();
    r.register(Named("a", 0));
    r.register(Named("b", 100));
    r.register(Named("c", 0));
    r.register_at(Named("d", 0), 50);
    assert_eq!(r.names(), vec!["c", "a", "d", "b"]);
    r.retain_names(&["b".to_owned(), "a".to_owned()]);
    assert_eq!(r.names(), vec!["a", "b"]);
}

#[test]
fn guesses_put_content_before_extension_before_the_declared_type() {
    let info = StreamInfo::new().with_extension("csv").with_mimetype("application/json");
    let d = detect(b"%PDF-1.7 ...", &info);
    assert!(matches!(d.leading_signal, Signal::Content), "{:?}", d.leading_signal);
    assert_eq!(d.guesses[0].mimetype.as_deref(), Some("application/pdf"));
    for i in 0..d.guesses.len() {
        for j in 0..i {
            assert!(d.guesses[i] != d.guesses[j]);
        }
    }
}

#[test]
fn a_probe_shows_no_more_than_its_window() {
    let long = vec![b'x'; 10_000];
    assert_eq!(Probe::new(&long).head().len(), 8192);
    assert_eq!(Probe::new(&long).len(), 10_000);
}

#[test]
fn a_refused_charge_stays_refused() {
    let mut b = Budget::new(Limits {
        max_expanded_bytes: 10,
        max_embedded_documents: 1,
        ..Limits::default()
    });
    assert!(b.charge_expanded(6).is_ok());
    assert!(b.charge_expanded(4).is_ok());
    assert_eq!(b.expanded_bytes(), 10);
    assert!(b.charge_expanded(1).is_err());
    assert!(b.charge_expanded(0).is_err());
    assert!(b.charge_embedded().is_ok());
    assert!(b.charge_embedded().is_err());
    assert!(b.charge_embedded().is_err());
}

// --- formats ----------------------------------------------------------------

fn pages(texts: &[&str]) -> Document {
    let mut b = Budget::new(Limits::default());
    let mut cx = ConvertCx::new(&mut b);
    let ready = Extracted::Ready(texts.iter().map(|t| (*t).to_owned()).collect());
    convert_pages(Document::new(), ready, &StreamInfo::new(), &mut cx).expect("converts")
}

#[test]
fn guessed_headings_and_missing_text_are_reported() {
    let plain = pages(&["an ordinary line, nothing more."]);
    assert!(plain.warnings.is_empty(), "{:?}", plain.warnings);
    let guessed = pages(&["3.2 Results\nsome text follows here."]);
    assert!(guessed.warnings.iter().any(|w| w.kind == WarningKind::HeuristicApplied));
    let gap = pages(&["text.", "  \n"]);
    assert_eq!(
        gap.warnings[0].message,
        "1 of 2 pages carried no extractable text (2); they are probably scanned images and need OCR"
    );
    let none = pages(&[]);
    assert!(none.warnings.iter().any(|w| w.kind == WarningKind::NoTextLayer));
}

#[test]
fn guessed_levels_stay_between_one_and_five() {
    assert_eq!(heading_shape("1.2.3.4.5.6.7 Deep"), Some(5));
    assert_eq!(heading_shape("7) Seven"), Some(1));
}

#[test]
fn tables_hold_at_most_one_row_more_than_is_rendered() {
    let l = Limits { max_table_rows: 3, ..Limits::default() };
    let text: String = (0..20).map(|i| format!("{i},x\n")).collect();
    let mut b = Budget::new(l.clone());
    let mut cx = ConvertCx::new(&mut b);
    let info = StreamInfo::new().with_extension("csv");
    let doc = CsvConverter.convert(text.as_bytes(), &info, &mut cx).expect("converts");
    match &doc.blocks[0] {
        Block::Table(t) => assert!(t.rows.len() <= 5, "{}", t.rows.len()),
        other => panic!("{other:?}"),
    }
    let cells: Vec<Vec<Cell>> = (0..20).map(|i| vec![Cell::Int(i)]).collect();
    let sheets = Extracted::Ready(vec![Sheet { name: "S".into(), cells: Some(cells) }]);
    let mut b = Budget::new(l);
    let mut cx = ConvertCx::new(&mut b);
    let doc = convert_sheets(sheets, &StreamInfo::new(), &mut cx).expect("converts");
    for block in &doc.blocks {
        if let Block::Table(t) = block {
            assert!(t.rows.len() <= 4, "{}", t.rows.len());
        }
    }
}

#[test]
fn squeezing_twice_changes_nothing() {
    let once = squeeze("  a \t b\n\n c ");
    assert_eq!(once, "a b c");
    assert_eq!(squeeze(&once), once);
}

#[test]
fn declarations_change_nothing() {
    let mut with = Vec::new();
    let mut without = Vec::new();
    let body = "<r><a x=\"1\">t</a></r>";
    let source = format!("<?xml version=\"1.0\"?><!DOCTYPE r [<!ENTITY e \"boom\">]>{body}");
    read_events(&source, "xml", &mut with).expect("reads");
    read_events(body, "xml", &mut without).expect("reads");
    assert_eq!(format!("{with:?}"), format!("{without:?}"));
    assert!(!with.is_empty());
}

#[test]
fn paths_of_a_book_stay_inside_it() {
    assert_eq!(normalise("OEBPS/../../../etc/./passwd"), "etc/passwd");
    assert_eq!(normalise("a/b/../c"), "a/c");
}

#[test]
fn cut_text_fits_and_is_reported() {
    let mut warnings: Vec<Warning> = Vec::new();
    let out = truncate_at_line("one\ntwo\nthree\n", 9, &mut warnings);
    assert!(out.len() <= 10, "{out:?}");
    assert!(out.starts_with("one\ntwo"), "{out:?}");
    assert_eq!(warnings.len(), 1);
    assert_eq!(warnings[0].kind, WarningKind::Truncated);
}

#[test]
fn templates_that_compile_parse_and_have_a_block() {
    let spec = |name: &str, source: &str| TemplateSpec {
        document: None,
        blocks: vec![(name.to_owned(), source.to_owned())],
    };
    for name in known_block_templates() {
        assert!(Templates::compile(&spec(&name, "x"), &Fixed(&[])).is_ok(), "{name}");
    }
    assert!(Templates::compile(&spec("no_such_block", "x"), &Fixed(&[])).is_err());
    assert!(Templates::compile(&spec("paragraph", "{{ unclosed"), &Fixed(&[])).is_err());
}

#[test]
fn templated_output_stays_within_its_cap() {
    let spec = TemplateSpec { document: Some("{{ body }}{{ body }}".to_owned()), blocks: vec![] };
    let t = Templates::compile(&spec, &Fixed(&[])).expect("compiles");
    let doc = doc_of(vec![para(&"word ".repeat(30))]);
    let opts = RenderOptions::default();
    let cut = t.render(&Fixed(&[]), &doc, &opts, &limits(200), RenderExtras::default()).expect("renders");
    assert!(cut.markdown.len() <= 201, "{}", cut.markdown.len());
    assert!(cut.warnings.iter().any(|w| w.kind == WarningKind::Truncated));
    let whole = t.render(&Fixed(&[]), &doc, &opts, &limits(400), RenderExtras::default()).expect("renders");
    assert!(whole.warnings.is_empty());
    assert_eq!(whole.markdown.matches("word").count(), 60);
}

#[test]
fn a_refusal_comes_after_every_accepting_converter_failed() {
    let broken = engine().convert(b"{\"a\": ", &StreamInfo::new().with_extension("json"));
    let c = broken.expect("the text converter still accepts it");
    assert_eq!(c.converter, "text");
    let lone = ConvertOptions {
        formats: FormatSelection { enable: Some(vec!["json".to_owned()]) },
        ..ConvertOptions::default()
    };
    let e = Engine::new(lone, Fixed(&[])).expect("builds");
    let refused = e.convert(b"{\"a\": ", &StreamInfo::new().with_extension("json"));
    assert!(matches!(refused, Err(ConvertError::Malformed { format: "json", .. })));
}

#[test]
fn hidden_text_leaves_no_trace() {
    assert_eq!(strip_non_prose("a<!-- x -->b<SCRIPT>y</script>c<style>z"), "abc");
    assert_eq!(strip_non_prose("a<script>one</script>b"), strip_non_prose("a<script>another</script>b"));
    assert_eq!(strip_non_prose("nothing hidden"), "nothing hidden");
}

//! The steps that follow each outside reading, on plain values.

use mcpg_markdown_convert::converters::csv::{delimiter_for, table_document};
use mcpg_markdown_convert::converters::epub::{chapter_blocks, parse_package, rootfile_path};
use mcpg_markdown_convert::converters::json::{Json, notebook};
use mcpg_markdown_convert::converters::media::{AudioFacts, add_audio};
use mcpg_markdown_convert::converters::msg::{Message, PropertyKind, assemble, wanted_entry};
use mcpg_markdown_convert::converters::ooxml::{apply_core, docx_blocks, find_slides, note_texts};
use mcpg_markdown_convert::converters::ooxml::{rel_targets, slide_blocks};
use mcpg_markdown_convert::converters::sheet::{Cell, Sheet, convert_sheets};
use mcpg_markdown_convert::converters::text::document_of;
use mcpg_markdown_convert::converters::xml::{Event, Node, elements_document, feed_from};
use mcpg_markdown_convert::converters::xml::{read_events, take_event};
use mcpg_markdown_convert::converters::zip::{Verdict, let_in, screen, take_in};
use mcpg_markdown_convert::detect::{Hint, hint, weigh};
use mcpg_markdown_convert::template::{block_value, document_value, finish_block, finish_block_parse};
use mcpg_markdown_convert::template::{finish_document, finish_document_parse, source_value, table_text};
use mcpg_markdown_convert::{Block, Budget, ConvertCx, ConvertError, Document, Extracted, Inline};
use mcpg_markdown_convert::{Limits, Parsed, Signal, Span, StreamInfo, Warning, WarningKind, Written};

fn nodes_of(xml: &str) -> Vec<Node> {
    let mut nodes = Vec::new();
    read_events(xml, "xml", &mut nodes).expect("well formed");
    nodes
}

fn para(s: &str) -> Block {
    Block::Paragraph(Inline::text(s))
}

fn heading(level: u8, s: &str) -> Block {
    Block::Heading { level, text: Inline::text(s) }
}

fn messages(d: &Document) -> Vec<&str> {
    d.warnings.iter().map(|w| w.message.as_str()).collect()
}

fn strings(v: &[&str]) -> Vec<String> {
    v.iter().map(|s| (*s).to_owned()).collect()
}

// --- text and tables --------------------------------------------------------

#[test]
fn the_delimiter_follows_the_name_then_the_text() {
    let tsv = StreamInfo::new().with_extension("tsv");
    assert_eq!(delimiter_for(&tsv, "a,b\n"), b'\t');
    assert_eq!(delimiter_for(&StreamInfo::new(), "a;b;c\n1;2;3\n"), b';');
    assert_eq!(delimiter_for(&StreamInfo::new(), "a,b\n"), b',');
}

#[test]
fn records_become_one_table() {
    let records = vec![strings(&["name", "age"]), strings(&["Ann", "7"])];
    let doc = table_document(&records, &Some("people".to_owned()));
    match &doc.blocks[..] {
        [Block::Table(t)] => {
            assert_eq!(t.header, Some(vec![Inline::text("name"), Inline::text("age")]));
            assert_eq!(t.rows, vec![vec![Inline::text("Ann"), Inline::text("7")]]);
        },
        other => panic!("{other:?}"),
    }
}

#[test]
fn plain_text_is_split_and_markdown_is_kept() {
    let plain = document_of("one\ntwo\n\nthree", false);
    assert_eq!(plain.blocks.len(), 2);
    let raw = document_of("# Title\n\nbody\n", true);
    assert_eq!(raw.blocks.len(), 1);
    assert!(matches!(&raw.blocks[0], Block::Raw { markdown } if markdown.contains("# Title")));
}

// --- notebooks --------------------------------------------------------------

fn text_json(s: &str) -> Json {
    Json::Str(s.to_owned())
}

#[test]
fn a_notebook_shows_its_cells_in_order() {
    let cell = |kind: &str, source: &str| {
        Json::Object(vec![
            ("cell_type".to_owned(), text_json(kind)),
            ("source".to_owned(), text_json(source)),
        ])
    };
    let cells = Json::Array(vec![cell("markdown", "# Intro"), cell("code", "x = 1")]);
    let nb = Json::Object(vec![("cells".to_owned(), cells)]);
    let mut b = Budget::new(Limits::default());
    let cx = ConvertCx::new(&mut b);
    let doc = notebook(&nb, &cx).expect("a notebook");
    assert_eq!(doc.blocks.len(), 2);
    assert!(matches!(&doc.blocks[0], Block::Raw { markdown } if markdown == "# Intro"));
    assert!(matches!(&doc.blocks[1], Block::Code { text, .. } if text == "x = 1"));
}

#[test]
fn a_notebook_value_without_cells_is_malformed() {
    let mut b = Budget::new(Limits::default());
    let cx = ConvertCx::new(&mut b);
    assert!(matches!(
        notebook(&Json::Object(vec![]), &cx),
        Err(ConvertError::Malformed { format: "ipynb", .. })
    ));
}

// --- XML --------------------------------------------------------------------

#[test]
fn an_element_is_recorded_when_it_closes() {
    let mut stack = Vec::new();
    let mut nodes = Vec::new();
    let attr = Some((b"n:id".to_vec(), Some("7".to_owned())));
    take_event(&mut stack, &mut nodes, Event::Open(b"n:a".to_vec(), vec![attr, None]));
    take_event(&mut stack, &mut nodes, Event::Open(b"b".to_vec(), vec![]));
    take_event(&mut stack, &mut nodes, Event::Text(Some("in".to_owned())));
    assert!(nodes.is_empty());
    take_event(&mut stack, &mut nodes, Event::Close);
    take_event(&mut stack, &mut nodes, Event::Other);
    take_event(&mut stack, &mut nodes, Event::CData(b"out".to_vec()));
    take_event(&mut stack, &mut nodes, Event::Close);
    assert!(stack.is_empty());
    assert_eq!(nodes.len(), 2);
    assert_eq!(nodes[0].path, strings(&["a", "b"]));
    assert_eq!(nodes[0].own_text, "in");
    assert_eq!(nodes[1].path, strings(&["a"]));
    assert_eq!(nodes[1].own_text, "out");
    assert!(nodes[1].text.contains("in") && nodes[1].text.contains("out"));
    assert_eq!(nodes[1].attrs, vec![("id".to_owned(), "7".to_owned())]);
}

#[test]
fn closing_nothing_changes_nothing() {
    let mut stack = Vec::new();
    let mut nodes = Vec::new();
    take_event(&mut stack, &mut nodes, Event::Close);
    take_event(&mut stack, &mut nodes, Event::Text(Some("stray".to_owned())));
    take_event(&mut stack, &mut nodes, Event::Text(None));
    assert!(stack.is_empty() && nodes.is_empty());
}

#[test]
fn elements_and_feeds_are_shown_from_their_nodes() {
    let doc = elements_document(&nodes_of("<r><a>one</a><b>two</b></r>"));
    let shown = format!("{:?}", doc.blocks);
    assert!(shown.find("one").unwrap() < shown.find("two").unwrap(), "{shown}");
    let rss = "<rss><channel><title>News</title><item><title>First</title>\
        <link>https://e.org/1</link></item></channel></rss>";
    let feed = feed_from(&nodes_of(rss));
    assert_eq!(feed.title.as_deref(), Some("News"));
    assert!(feed.blocks.contains(&heading(2, "First")), "{:?}", feed.blocks);
}

// --- office files and books -------------------------------------------------

#[test]
fn core_properties_are_taken_from_their_nodes() {
    let mut doc = Document::new();
    let core = "<p><title>T</title><creator>  A  B </creator><created>2020</created>\
        <modified>2021</modified></p>";
    apply_core(&mut doc, &nodes_of(core));
    assert_eq!(doc.title.as_deref(), Some("T"));
    assert_eq!(doc.metadata.author.as_deref(), Some("A B"));
    assert_eq!(doc.metadata.created.as_deref(), Some("2020"));
    assert_eq!(doc.metadata.modified.as_deref(), Some("2021"));
}

#[test]
fn relations_lead_to_targets_and_links() {
    let rels = rel_targets(&nodes_of(
        "<Relationships><Relationship Id=\"r1\" Target=\"https://e.org\"/><Relationship Id=\"x\"/>\
        </Relationships>",
    ));
    assert_eq!(rels, vec![("r1".to_owned(), "https://e.org".to_owned())]);
    let body = nodes_of(
        "<w:body><w:p><w:hyperlink r:id=\"r1\"><w:r><w:t>here</w:t></w:r></w:hyperlink></w:p>\
        </w:body>",
    );
    let blocks = docx_blocks(&body, &rels);
    assert_eq!(blocks.len(), 1);
    assert!(format!("{blocks:?}").contains("https://e.org"), "{blocks:?}");
    assert!(!format!("{:?}", docx_blocks(&body, &vec![])).contains("https://e.org"));
}

#[test]
fn notes_are_their_paragraphs() {
    let notes = nodes_of("<n><p><r><t>one</t></r></p><p><r><t> </t></r></p><p><r><t>two</t></r></p></n>");
    assert_eq!(note_texts(&notes), strings(&["one", "two"]));
}

#[test]
fn slides_are_found_by_number() {
    let names = strings(&[
        "ppt/slides/slide10.xml",
        "ppt/slides/slide2.xml",
        "ppt/slides/_rels/slide2.xml.rels",
        "ppt/slides/slideX.xml",
    ]);
    assert_eq!(
        find_slides(&names),
        vec![
            (2, "ppt/slides/slide2.xml".to_owned()),
            (10, "ppt/slides/slide10.xml".to_owned()),
        ]
    );
}

#[test]
fn a_slide_shows_its_paragraphs() {
    let slide = nodes_of("<p:sld><a:p><a:r><a:t>Hello</a:t></a:r></a:p></p:sld>");
    assert!(format!("{:?}", slide_blocks(&slide)).contains("Hello"));
}

#[test]
fn a_package_lists_its_manifest_and_spine() {
    let container = nodes_of("<c><rootfile full-path=\"a/b.opf\"/><rootfile full-path=\"c\"/></c>");
    assert_eq!(rootfile_path(&container).as_deref(), Some("a/b.opf"));
    assert_eq!(rootfile_path(&nodes_of("<c/>")), None);
    let p = parse_package(&nodes_of(
        "<package><metadata><dc:title> A  book </dc:title><dc:creator> </dc:creator></metadata>\
        <manifest><item id=\"n\" href=\"n.xhtml\" properties=\"cover nav\"/>\
        <item id=\"c\" href=\"c.xhtml\"/><item id=\"lost\"/></manifest>\
        <spine><itemref idref=\"n\"/><itemref idref=\"c\"/></spine></package>",
    ));
    assert_eq!(p.title.as_deref(), Some("A book"));
    assert_eq!(p.creator, None);
    assert_eq!(p.manifest, vec![("c".to_owned(), "c.xhtml".to_owned())]);
    assert_eq!(p.nav_ids, strings(&["n"]));
    assert_eq!(p.spine, strings(&["n", "c"]));
}

#[test]
fn a_chapter_shows_headings_and_paragraphs() {
    let nodes = nodes_of("<b><h3>Part</h3><p>text <i>here</i></p><h9>no</h9><p> </p><li>item</li></b>");
    assert_eq!(
        chapter_blocks(&nodes),
        vec![heading(3, "Part"), para("text here"), para("item")]
    );
}

// --- messages ---------------------------------------------------------------

#[test]
fn unconverted_parts_of_a_message_are_reported() {
    let mut m = Message { props: vec![], attachments: strings(&["plan.pdf"]) };
    m.record("subject", "  Hello   there ".to_owned());
    m.record("subject", "later".to_owned());
    m.record("body_html", "<p>hi</p>".to_owned());
    m.record("from", "  ".to_owned());
    assert_eq!(m.get("from"), None);
    let doc = assemble(&m).expect("a message");
    assert_eq!(doc.title.as_deref(), Some("Hello there"));
    let all = messages(&doc).join("\n");
    assert!(all.contains("attachment"), "{all}");
    assert!(all.to_lowercase().contains("html"), "{all}");
}

#[test]
fn a_message_that_says_nothing_is_malformed() {
    let m = Message { props: vec![], attachments: vec![] };
    assert!(matches!(assemble(&m), Err(ConvertError::Malformed { format: "msg", .. })));
}

#[test]
fn only_property_streams_are_wanted() {
    let path = |name: &str| strings(&["/", "__attach_version1.0_#00000000", name]);
    assert!(matches!(
        wanted_entry(&(true, path("__substg1.0_0037001F"))),
        Some(("subject", PropertyKind::Utf16))
    ));
    assert!(wanted_entry(&(false, path("__substg1.0_0037001F"))).is_none());
    assert!(wanted_entry(&(true, path("other"))).is_none());
    assert!(wanted_entry(&(true, vec![])).is_none());
}

// --- media and sheets -------------------------------------------------------

#[test]
fn audio_facts_become_metadata() {
    let mut doc = Document::new();
    let facts = AudioFacts {
        seconds: 61,
        bitrate: None,
        sample_rate: Some(44100),
        title: Some("Song".to_owned()),
        artist: Some("Ann".to_owned()),
        album: None,
        date: Some(" ".to_owned()),
        comment: None,
    };
    add_audio(&mut doc, &facts);
    assert_eq!(doc.title.as_deref(), Some("Song"));
    assert_eq!(doc.metadata.author.as_deref(), Some("Ann"));
    assert_eq!(doc.metadata.get("duration_seconds"), Some("61"));
    assert_eq!(doc.metadata.get("sample_rate_hz"), Some("44100"));
    assert_eq!(doc.metadata.get("bitrate_kbps"), None);
    assert_eq!(doc.metadata.get("recorded"), None);
}

fn sheets(max_table_rows: u32, all: Vec<Sheet>) -> Document {
    let mut b = Budget::new(Limits { max_table_rows, ..Limits::default() });
    let mut cx = ConvertCx::new(&mut b);
    convert_sheets(Extracted::Ready(all), &StreamInfo::new(), &mut cx).expect("converts")
}

#[test]
fn incomplete_sheets_are_reported() {
    let row = |s: &str| vec![Cell::Text(s.to_owned())];
    let cut = Sheet { name: "long".to_owned(), cells: Some(vec![row("a"), row("b"), row("c")]) };
    let lost = Sheet { name: "lost".to_owned(), cells: None };
    let whole = Sheet { name: "whole".to_owned(), cells: Some(vec![row("a")]) };
    let doc = sheets(2, vec![cut, lost, whole]);
    assert_eq!(
        messages(&doc),
        ["sheet \"long\": 3 rows, capped at 2", "sheet \"lost\" could not be read"]
    );
    let blank = Sheet { name: "x".to_owned(), cells: Some(vec![row(""), row(" "), row("c")]) };
    assert!(sheets(1, vec![blank]).warnings.is_empty());
}

// --- archives ---------------------------------------------------------------

#[test]
fn members_are_screened_by_name_and_count() {
    let mut b = Budget::new(Limits { max_embedded_documents: 1, ..Limits::default() });
    let mut cx = ConvertCx::new(&mut b);
    let mut doc = Document::new();
    let dir = ("d/".to_owned(), 0, false);
    assert!(matches!(screen(&dir, &mut doc, &mut cx), Verdict::Skip));
    assert!(doc.warnings.is_empty());
    let locked = ("secret.txt".to_owned(), 3, true);
    assert!(matches!(screen(&locked, &mut doc, &mut cx), Verdict::Skip));
    assert_eq!(doc.warnings.len(), 1);
    let plain = ("a.txt".to_owned(), 3, false);
    assert!(matches!(screen(&plain, &mut doc, &mut cx), Verdict::Go));
    assert!(matches!(screen(&plain, &mut doc, &mut cx), Verdict::Stop));
    assert_eq!(doc.warnings.len(), 2);
}

#[test]
fn members_are_let_in_while_the_budget_lasts() {
    let mut b = Budget::new(Limits { max_expanded_bytes: 4, ..Limits::default() });
    let mut cx = ConvertCx::new(&mut b);
    let mut doc = Document::new();
    let bad = Some(Err("crc".to_owned()));
    assert!(matches!(let_in("a", &bad, &mut doc, &mut cx), Verdict::Skip));
    assert_eq!(doc.warnings.len(), 1);
    let small = Some(Ok(vec![0; 3]));
    assert!(matches!(let_in("b", &small, &mut doc, &mut cx), Verdict::Go));
    assert!(matches!(let_in("c", &small, &mut doc, &mut cx), Verdict::Stop));
    assert_eq!(doc.warnings.len(), 2);
}

#[test]
fn a_member_is_shown_or_named() {
    let mut doc = Document::new();
    let mut inner = Document::new();
    inner.push(para("inside"));
    assert!(take_in(&mut doc, "a.txt".to_owned(), Ok(inner)).is_none());
    assert!(matches!(&doc.blocks[..], [Block::Embedded { name, .. }] if name == "a.txt"));
    let broken = ConvertError::Malformed { format: "json", message: "eof".to_owned() };
    assert!(take_in(&mut doc, "b.json".to_owned(), Err(broken)).is_none());
    assert_eq!(doc.blocks.len(), 1);
    assert!(messages(&doc)[0].contains("b.json"), "{:?}", doc.warnings);
}

// --- detection --------------------------------------------------------------

#[test]
fn member_names_hint_at_their_container() {
    assert!(matches!(hint("[Content_Types].xml"), Hint::Nothing));
    assert!(matches!(hint("mimetype"), Hint::Epub));
    assert!(matches!(hint("word/document.xml"), Hint::Docx));
    assert!(matches!(hint("ppt/slides/slide1.xml"), Hint::Pptx));
    assert!(matches!(hint("xl/workbook.xml"), Hint::Xlsx));
    assert!(matches!(hint("readme.txt"), Hint::Nothing));
}

#[test]
fn signals_are_weighed_in_order() {
    let base = StreamInfo::new().with_mimetype("text/csv").with_extension("txt");
    let d = weigh(Some(("application/pdf", "pdf")), Some("utf-8".to_owned()), &base);
    assert_eq!(d.leading_signal, Signal::Content);
    assert_eq!(d.mismatch.as_deref(), Some("declared text/csv, content looks like application/pdf"));
    let types: Vec<_> = d.guesses.iter().map(|g| g.mimetype.as_deref().unwrap()).collect();
    assert_eq!(types, ["application/pdf", "text/plain", "text/csv"]);
    let text = weigh(None, Some("utf-8".to_owned()), &StreamInfo::new());
    assert_eq!(text.guesses[0].mimetype.as_deref(), Some("text/plain"));
    assert_eq!(text.guesses[0].charset.as_deref(), Some("utf-8"));
    let bare = weigh(None, None, &StreamInfo::new());
    assert_eq!(bare.leading_signal, Signal::Absent);
    assert_eq!(bare.guesses.len(), 1);
}

// --- templates --------------------------------------------------------------

#[test]
fn a_block_is_a_map_with_its_type() {
    let v = block_value(&heading(2, "Hi"));
    assert_eq!(v.get("type").and_then(|t| t.as_str()), Some("heading"));
    assert_eq!(v.get("level").and_then(|t| t.as_u64()), Some(2));
    assert_eq!(v.get("text").and_then(|t| t.as_str()), Some("Hi"));
}

#[test]
fn a_document_and_its_source_are_maps() {
    let mut d = Document::new().with_title("T");
    d.push(para("p"));
    d.warn(Warning::new(WarningKind::Degraded, "w"));
    let v = document_value(&d);
    assert_eq!(v["title"].as_str(), Some("T"));
    assert_eq!(v["blocks"].as_array().map(Vec::len), Some(1));
    assert_eq!(v["warnings"].as_array().map(Vec::len), Some(1));
    let s = source_value(Some(&StreamInfo::new().with_filename("a.txt")));
    assert_eq!(s["filename"].as_str(), Some("a.txt"));
}

#[test]
fn a_template_parses_or_is_refused() {
    assert!(finish_document_parse(Parsed::Sound).is_ok());
    assert!(matches!(
        finish_document_parse(Parsed::Faulty("bad".to_owned())),
        Err(ConvertError::Template { stage: "parse document", message }) if message == "bad"
    ));
    assert!(matches!(
        finish_document_parse(Parsed::Panicked),
        Err(ConvertError::Template { stage: "parse document", message })
            if message == "the parser panicked"
    ));
    assert!(finish_block_parse("rule", Parsed::Sound).is_ok());
    assert!(matches!(
        finish_block_parse("rule", Parsed::Faulty("bad".to_owned())),
        Err(ConvertError::Template { stage: "parse blocks", message }) if message == "rule: bad"
    ));
    assert!(matches!(
        finish_block_parse("rule", Parsed::Panicked),
        Err(ConvertError::Template { stage: "parse blocks", message })
            if message == "rule: the parser panicked"
    ));
}

#[test]
fn template_output_is_kept_cut_or_refused() {
    assert_eq!(finish_block("heading", Written::Text("x".to_owned())).unwrap(), "x");
    assert!(matches!(
        finish_block("heading", Written::Missing("bad".to_owned())),
        Err(ConvertError::Template { stage: "load block", message }) if message == "bad"
    ));
    assert!(matches!(
        finish_block("heading", Written::Failed("bad".to_owned())),
        Err(ConvertError::Template { stage: "render block", message }) if message == "heading: bad"
    ));
    assert!(matches!(
        finish_block("heading", Written::Panicked),
        Err(ConvertError::Template { stage: "render block", message })
            if message == "heading: the template panicked"
    ));
    assert!(matches!(
        finish_document(Written::Missing("bad".to_owned()), vec![], 5),
        Err(ConvertError::Template { stage: "load document", message }) if message == "bad"
    ));
    assert!(matches!(
        finish_document(Written::Failed("bad".to_owned()), vec![], 5),
        Err(ConvertError::Template { stage: "render document", message }) if message == "bad"
    ));
    assert!(matches!(
        finish_document(Written::Panicked, vec![], 5),
        Err(ConvertError::Template { stage: "render document", message })
            if message == "the template panicked"
    ));
    let r = finish_document(Written::Text("one\ntwo\n".to_owned()), vec![], 5).unwrap();
    assert!(r.markdown.len() <= 5 && r.markdown.starts_with("one"), "{:?}", r.markdown);
    assert!(r.warnings.iter().any(|w| w.kind == WarningKind::Truncated));
    let whole = finish_document(Written::Text("one\n".to_owned()), vec![], 50).unwrap();
    assert!(whole.warnings.is_empty());
}

#[test]
fn a_table_value_is_a_pipe_table() {
    let mut t = mcpg_markdown_convert::Table { caption: None, header: None, rows: vec![] };
    t.header = Some(vec![Inline::text("h")]);
    t.rows.push(vec![Inline(vec![Span::Text("c".to_owned())])]);
    let v = block_value(&Block::Table(t));
    assert_eq!(table_text(&v), "| h |\n| --- |\n| c |\n");
}

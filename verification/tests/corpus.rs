//! One input of every format, built on the spot.

use calamine::Reader;
use lofty::file::{AudioFile, TaggedFileExt};
use lofty::tag::ItemKey;
use mcpg_markdown_convert::converters::media::{AudioFacts, AudioRead};
use mcpg_markdown_convert::converters::pdf::{PdfFile, PdfInfo};
use mcpg_markdown_convert::converters::sheet::{Cell, Sheet};
use mcpg_markdown_convert::{ConvertOptions, Engine, FormatSelection, FrontMatter, Limits, RenderOptions};
use mcpg_markdown_convert::{Extracted, Extractor, Parsed, Written};
use mcpg_markdown_convert::{StreamInfo, TableStyle, TemplateSpec};
use std::io::Cursor;
use std::io::Write;

/// Runs the extractors as they are; the files here are sound.
#[derive(Clone, Copy)]
struct Host;

fn cell(c: &calamine::Data) -> Cell {
    match c {
        calamine::Data::Empty => Cell::Empty,
        calamine::Data::String(s) => Cell::Text(s.clone()),
        calamine::Data::Float(f) => Cell::Number(f.to_string()),
        calamine::Data::Int(i) => Cell::Int(*i),
        calamine::Data::Bool(b) => Cell::Bool(*b),
        calamine::Data::DateTime(d) => {
            if d.is_duration() {
                Cell::Hours(format!("{:.4}", d.as_f64() * 24.0))
            } else {
                let (year, month, day, hour, minute, second, _) = d.to_ymd_hms_milli();
                Cell::DateTime { year, month, day, hour, minute, second }
            }
        }
        calamine::Data::DateTimeIso(s) | calamine::Data::DurationIso(s) => Cell::Iso(s.clone()),
        calamine::Data::Error(e) => Cell::Fault(format!("{e:?}")),
    }
}

impl Extractor for Host {
    fn pdf_file(&self, bytes: &[u8]) -> Extracted<PdfFile> {
        let d = match pdf_extract::Document::load_mem(bytes) {
            Ok(d) => d,
            Err(e) => return Extracted::Failed(e.to_string()),
        };
        let info = d
            .trailer
            .get(b"Info")
            .and_then(|o| o.as_reference())
            .and_then(|r| d.get_object(r))
            .and_then(|o| o.as_dict())
            .ok();
        let text = |key: &str| Some(info?.get(key.as_bytes()).ok()?.as_str().ok()?.to_vec());
        Extracted::Ready(PdfFile {
            encrypted: d.is_encrypted(),
            info: PdfInfo {
                title: text("Title"),
                author: text("Author"),
                created: text("CreationDate"),
                modified: text("ModDate"),
                subject: text("Subject"),
                keywords: text("Keywords"),
                producer: text("Producer"),
                creator: text("Creator"),
            },
        })
    }

    fn markdown(&self, html: &str) -> Extracted<String> {
        match htmd::convert(html) {
            Ok(m) => Extracted::Ready(m),
            Err(e) => Extracted::Failed(e.to_string()),
        }
    }

    fn audio(&self, bytes: &[u8]) -> Extracted<AudioRead> {
        let probe = match lofty::probe::Probe::new(Cursor::new(bytes)).guess_file_type() {
            Ok(p) => p,
            Err(e) => return Extracted::Failed(e.to_string()),
        };
        if probe.file_type().is_none() {
            return Extracted::Ready(AudioRead::Unknown);
        }
        let file = match probe.read() {
            Ok(f) => f,
            Err(e) => return Extracted::Ready(AudioRead::Unread(e.to_string())),
        };
        let tag = file.primary_tag().or_else(|| file.first_tag());
        let text = |key: ItemKey| tag.and_then(|t| t.get_string(key)).map(str::to_owned);
        let p = file.properties();
        Extracted::Ready(AudioRead::Read(AudioFacts {
            seconds: p.duration().as_secs(),
            bitrate: p.audio_bitrate(),
            sample_rate: p.sample_rate(),
            title: text(ItemKey::TrackTitle),
            artist: text(ItemKey::TrackArtist),
            album: text(ItemKey::AlbumTitle),
            date: text(ItemKey::RecordingDate),
            comment: text(ItemKey::Comment),
        }))
    }

    fn pdf_pages(&self, bytes: &[u8]) -> Extracted<Vec<String>> {
        match pdf_extract::extract_text_from_mem_by_pages(bytes) {
            Ok(pages) => Extracted::Ready(pages),
            Err(e) => Extracted::Failed(e.to_string()),
        }
    }

    fn sheets(&self, bytes: &[u8]) -> Extracted<Vec<Sheet>> {
        let mut book = match calamine::open_workbook_auto_from_rs(Cursor::new(bytes.to_vec())) {
            Ok(b) => b,
            Err(e) => return Extracted::Failed(e.to_string()),
        };
        let mut out = Vec::new();
        for name in book.sheet_names().to_vec() {
            let cells = book.worksheet_range(&name).ok().map(|r| {
                r.rows().map(|row| row.iter().map(cell).collect()).collect()
            });
            out.push(Sheet { name, cells });
        }
        Extracted::Ready(out)
    }

    fn add_template(
        &self,
        env: &mut minijinja::Environment<'static>,
        name: &str,
        source: &str,
    ) -> Parsed {
        match env.add_template_owned(name.to_owned(), source.to_owned()) {
            Ok(()) => Parsed::Sound,
            Err(e) => Parsed::Faulty(e.to_string()),
        }
    }

    fn write(
        &self,
        env: &minijinja::Environment<'static>,
        name: &str,
        context: &serde_json::Value,
    ) -> Written {
        match env.get_template(name) {
            Err(e) => Written::Missing(e.to_string()),
            Ok(t) => match t.render(context) {
                Ok(s) => Written::Text(s),
                Err(e) => Written::Failed(e.to_string()),
            },
        }
    }
}

/// A zip archive with the given entries, stored in order.
fn zip_of(parts: &[(&str, &[u8])]) -> Vec<u8> {
    let mut buf = Vec::new();
    {
        let mut w = zip::ZipWriter::new(Cursor::new(&mut buf));
        let opts: zip::write::FileOptions<'_, ()> =
            zip::write::FileOptions::default().compression_method(zip::CompressionMethod::Deflated);
        for (name, body) in parts {
            w.start_file(*name, opts).expect("start entry");
            w.write_all(body).expect("write entry");
        }
        w.finish().expect("finish archive");
    }
    buf
}

/// Text entries, for the common case.
fn zip_of_text(parts: &[(&str, &str)]) -> Vec<u8> {
    let owned: Vec<(&str, &[u8])> = parts.iter().map(|(n, b)| (*n, b.as_bytes())).collect();
    zip_of(&owned)
}

/// A `.docx` wrapping the given `<w:body>` content, with optional core
/// properties and relationships.
fn docx(body: &str) -> Vec<u8> {
    docx_full(body, None, None)
}

fn docx_full(body: &str, core: Option<&str>, rels: Option<&str>) -> Vec<u8> {
    let document = format!(
        r#"<?xml version="1.0" encoding="UTF-8"?>
<w:document xmlns:w="http://schemas.openxmlformats.org/wordprocessingml/2006/main"
            xmlns:r="http://schemas.openxmlformats.org/officeDocument/2006/relationships">
  <w:body>{body}</w:body>
</w:document>"#
    );
    let mut parts: Vec<(&str, &[u8])> = vec![
        ("[Content_Types].xml", b"<Types/>"),
        ("word/document.xml", document.as_bytes()),
    ];
    if let Some(c) = core {
        parts.push(("docProps/core.xml", c.as_bytes()));
    }
    if let Some(r) = rels {
        parts.push(("word/_rels/document.xml.rels", r.as_bytes()));
    }
    zip_of(&parts)
}

/// A `.pptx` from one XML body per slide, plus optional notes keyed by slide
/// number.
fn pptx(slides: &[&str], notes: &[(u32, &str)]) -> Vec<u8> {
    let mut names: Vec<String> = Vec::new();
    let mut bodies: Vec<String> = Vec::new();
    for (i, body) in slides.iter().enumerate() {
        names.push(format!("ppt/slides/slide{}.xml", i + 1));
        bodies.push(format!(
            r#"<?xml version="1.0" encoding="UTF-8"?>
<p:sld xmlns:p="http://schemas.openxmlformats.org/presentationml/2006/main"
       xmlns:a="http://schemas.openxmlformats.org/drawingml/2006/main">{body}</p:sld>"#
        ));
    }
    for (n, body) in notes {
        names.push(format!("ppt/notesSlides/notesSlide{n}.xml"));
        bodies.push(format!(
            r#"<?xml version="1.0" encoding="UTF-8"?>
<p:notes xmlns:p="http://schemas.openxmlformats.org/presentationml/2006/main"
         xmlns:a="http://schemas.openxmlformats.org/drawingml/2006/main">{body}</p:notes>"#
        ));
    }
    let parts: Vec<(&str, &[u8])> = names
        .iter()
        .zip(bodies.iter())
        .map(|(n, b)| (n.as_str(), b.as_bytes()))
        .collect();
    zip_of(&parts)
}

/// One PPTX text paragraph.
fn slide_text(lines: &[&str]) -> String {
    let paragraphs: String = lines
        .iter()
        .map(|l| format!("<a:p><a:r><a:t>{l}</a:t></a:r></a:p>"))
        .collect();
    format!("<p:cSld><p:spTree><p:sp><p:txBody>{paragraphs}</p:txBody></p:sp></p:spTree></p:cSld>")
}

/// An EPUB with the given chapters, in the given spine order.
///
/// `spine` names chapter ids, so a test can put the chapters out of zip order
/// and prove the converter follows the spine rather than the archive.
fn epub(chapters: &[(&str, &str, &str)], spine: &[&str]) -> Vec<u8> {
    let container = r#"<?xml version="1.0" encoding="UTF-8"?>
<container xmlns="urn:oasis:names:tc:opendocument:xmlns:container" version="1.0">
  <rootfiles><rootfile full-path="OEBPS/content.opf"
    media-type="application/oebps-package+xml"/></rootfiles>
</container>"#;

    let manifest: String = chapters
        .iter()
        .map(|(id, _, _)| {
            format!(r#"<item id="{id}" href="{id}.xhtml" media-type="application/xhtml+xml"/>"#)
        })
        .collect();
    let itemrefs: String = spine
        .iter()
        .map(|id| format!(r#"<itemref idref="{id}"/>"#))
        .collect();
    let opf = format!(
        r#"<?xml version="1.0" encoding="UTF-8"?>
<package xmlns="http://www.idpf.org/2007/opf" version="3.0" unique-identifier="id">
  <metadata xmlns:dc="http://purl.org/dc/elements/1.1/">
    <dc:title>A Short Book</dc:title>
    <dc:creator>Ada Lovelace</dc:creator>
    <dc:language>en</dc:language>
  </metadata>
  <manifest>{manifest}</manifest>
  <spine>{itemrefs}</spine>
</package>"#
    );

    let mut names = vec![
        "mimetype".to_owned(),
        "META-INF/container.xml".to_owned(),
        "OEBPS/content.opf".to_owned(),
    ];
    let mut bodies = vec!["application/epub+zip".to_owned(), container.to_owned(), opf];
    for (id, title, prose) in chapters {
        names.push(format!("OEBPS/{id}.xhtml"));
        bodies.push(format!(
            r#"<?xml version="1.0" encoding="UTF-8"?>
<html xmlns="http://www.w3.org/1999/xhtml"><body><h1>{title}</h1><p>{prose}</p></body></html>"#
        ));
    }
    let parts: Vec<(&str, &[u8])> = names
        .iter()
        .zip(bodies.iter())
        .map(|(n, b)| (n.as_str(), b.as_bytes()))
        .collect();
    zip_of(&parts)
}

/// The smallest structurally valid PDF that draws the given lines: catalog,
/// page tree, one page, one content stream.
fn pdf(lines: &[&str]) -> Vec<u8> {
    let mut content = String::from("BT /F1 12 Tf 72 720 Td");
    for (i, line) in lines.iter().enumerate() {
        if i > 0 {
            content.push_str(" 0 -18 Td");
        }
        content.push_str(&format!(" ({line}) Tj"));
    }
    content.push_str(" ET");

    let objects = [
        "<< /Type /Catalog /Pages 2 0 R >>".to_owned(),
        "<< /Type /Pages /Kids [3 0 R] /Count 1 >>".to_owned(),
        "<< /Type /Page /Parent 2 0 R /MediaBox [0 0 612 792] \
         /Resources << /Font << /F1 5 0 R >> >> /Contents 4 0 R >>"
            .to_owned(),
        format!(
            "<< /Length {} >>\nstream\n{content}\nendstream",
            content.len()
        ),
        "<< /Type /Font /Subtype /Type1 /BaseFont /Helvetica /Encoding /WinAnsiEncoding >>"
            .to_owned(),
    ];

    let mut out = String::from("%PDF-1.4\n");
    let mut offsets = Vec::new();
    for (i, body) in objects.iter().enumerate() {
        offsets.push(out.len());
        out.push_str(&format!("{} 0 obj\n{body}\nendobj\n", i + 1));
    }
    let xref_at = out.len();
    out.push_str(&format!("xref\n0 {}\n", objects.len() + 1));
    out.push_str("0000000000 65535 f \n");
    for off in &offsets {
        out.push_str(&format!("{off:010} 00000 n \n"));
    }
    out.push_str(&format!(
        "trailer\n<< /Size {} /Root 1 0 R >>\nstartxref\n{xref_at}\n%%EOF\n",
        objects.len() + 1
    ));
    out.into_bytes()
}

/// A 1×1 transparent PNG. No EXIF — the common case for a generated image,
/// and the one where the converter has nothing but the filename to report.
fn png() -> Vec<u8> {
    vec![
        0x89, b'P', b'N', b'G', 0x0D, 0x0A, 0x1A, 0x0A, // signature
        0x00, 0x00, 0x00, 0x0D, b'I', b'H', b'D', b'R', // IHDR length + type
        0x00, 0x00, 0x00, 0x01, 0x00, 0x00, 0x00, 0x01, // 1×1
        0x08, 0x06, 0x00, 0x00, 0x00, 0x1F, 0x15, 0xC4, 0x89, // bit depth, colour, CRC
        0x00, 0x00, 0x00, 0x00, b'I', b'E', b'N', b'D', 0xAE, 0x42, 0x60, 0x82, // IEND
    ]
}

/// A minimal PCM WAV: RIFF/WAVE container, 8 kHz mono 8-bit, `samples` bytes
/// of silence. Enough for `lofty` to read real duration and sample-rate
/// properties, which is what the audio converter reports.
fn wav(samples: u32) -> Vec<u8> {
    const SAMPLE_RATE: u32 = 8000;
    let data_len = samples;
    let riff_len = 36 + data_len;

    let mut out = Vec::with_capacity(44 + data_len as usize);
    out.extend_from_slice(b"RIFF");
    out.extend_from_slice(&riff_len.to_le_bytes());
    out.extend_from_slice(b"WAVE");

    out.extend_from_slice(b"fmt ");
    out.extend_from_slice(&16u32.to_le_bytes()); // PCM chunk size
    out.extend_from_slice(&1u16.to_le_bytes()); // format: PCM
    out.extend_from_slice(&1u16.to_le_bytes()); // channels: mono
    out.extend_from_slice(&SAMPLE_RATE.to_le_bytes());
    out.extend_from_slice(&SAMPLE_RATE.to_le_bytes()); // byte rate (8-bit mono)
    out.extend_from_slice(&1u16.to_le_bytes()); // block align
    out.extend_from_slice(&8u16.to_le_bytes()); // bits per sample

    out.extend_from_slice(b"data");
    out.extend_from_slice(&data_len.to_le_bytes());
    // 8-bit PCM silence is 0x80, not 0x00 — it is unsigned and centred.
    out.resize(44 + data_len as usize, 0x80);
    out
}

/// An OLE compound file holding the given MAPI property streams.
fn msg(props: &[(&str, Vec<u8>)]) -> Vec<u8> {
    let mut comp = cfb::OpenOptions::new()
        .create_with(Cursor::new(Vec::new()))
        .expect("create compound file");
    for (name, body) in props {
        let mut s = comp
            .create_stream(format!("/{name}"))
            .expect("create stream");
        s.write_all(body).expect("write stream");
        s.flush().expect("flush stream");
    }
    comp.into_inner().into_inner()
}

/// UTF-16LE bytes, the encoding MAPI `001F` properties use.
fn utf16(s: &str) -> Vec<u8> {
    s.encode_utf16().flat_map(u16::to_le_bytes).collect()
}

/// Where a case's bytes come from.
enum Input {
    /// A literal document, for text formats — readable in the diff as-is.
    Text(&'static str),
    /// A container built by [`mcpg_markdown_convert::fixtures`]. Binary formats are built
    /// rather than committed: a checked-in `.docx` is an opaque blob nobody
    /// reviews, and it would ride into the public OSS mirror.
    Built(fn() -> Vec<u8>),
}

struct Case {
    name: &'static str,
    /// Drives extension-based detection.
    filename: &'static str,
    input: Input,
    options: fn() -> ConvertOptions,
}

fn default_options() -> ConvertOptions {
    ConvertOptions::default()
}

/// Render one case exactly as the engine would.
fn render(case: &Case) -> String {
    let engine = Engine::new((case.options)(), Host).expect("profile builds");
    let bytes = match &case.input {
        Input::Text(s) => s.as_bytes().to_vec(),
        Input::Built(f) => f(),
    };
    let info = StreamInfo::new().with_filename(case.filename);
    match engine.convert(&bytes, &info) {
        Ok(out) => {
            // The converter and detection signal are part of the recorded
            // behaviour: a change that silently routes a document to a
            // different converter is exactly the regression this catches.
            let warnings: String = out
                .warnings
                .iter()
                .map(|w| format!("<!-- warning: {} — {} -->\n", w.kind.as_str(), w.message))
                .collect();
            format!(
                "<!-- converter: {} via {} -->\n{warnings}\n{}",
                out.converter, out.detected_via, out.markdown
            )
        }
        Err(e) => format!("<!-- error: {} — {} -->\n", e.code(), e.to_string()),
    }
}

// ---------------------------------------------------------------------------
// Cases
// ---------------------------------------------------------------------------

const CSV_SRC: &str = "region,revenue,note\nEMEA,1200,\"needs | escaping\"\nAPAC,900,\n";

const JSON_TABLE_SRC: &str = r#"[{"id":1,"name":"ada"},{"id":2,"name":"grace","extra":true}]"#;

const JSON_NESTED_SRC: &str = r#"{"a":{"deep":[1,2,3]},"b":"top"}"#;

const XML_SRC: &str = r#"<?xml version="1.0"?>
<order id="7"><customer>Ada</customer><lines><line sku="A1" qty="2"/></lines></order>"#;

const RSS_SRC: &str = r#"<?xml version="1.0"?>
<rss version="2.0"><channel>
  <title>Release Notes</title>
  <item><title>0.2.0</title><link>https://example.invalid/2</link>
    <pubDate>Mon, 02 Feb 2026 00:00:00 GMT</pubDate>
    <description>Adds markdown conversion.</description></item>
  <item><title>0.1.0</title><link>https://example.invalid/1</link>
    <description>First cut.</description></item>
</channel></rss>"#;

const HTML_SRC: &str = r#"<html><head><title>Quarterly</title>
<meta name="author" content="Ada"><style>.x{color:red}</style></head>
<body><h1>Q3</h1><p>Revenue <strong>rose</strong> to 1200.</p>
<ul><li>EMEA</li><li>APAC</li></ul>
<table><tr><th>region</th><th>eur</th></tr><tr><td>EMEA</td><td>1200</td></tr></table>
<script>alert(1)</script></body></html>"#;

const IPYNB_SRC: &str = r##"{
  "metadata": {"language_info": {"name": "python"}},
  "cells": [
    {"cell_type": "markdown", "source": ["# Analysis\n", "\n", "With **emphasis**.\n"]},
    {"cell_type": "code", "source": "print(1 + 1)\n",
     "outputs": [{"output_type": "stream", "text": ["2\n"]}]}
  ]
}"##;

const TEXT_SRC: &str = "First paragraph, soft\nwrapped across lines.\n\nSecond paragraph.\n";

const MARKDOWN_SRC: &str = "# Already Markdown\n\n- a list item\n- another\n\n`code` stays.\n";

fn docx_bytes() -> Vec<u8> {
    let core = r#"<?xml version="1.0"?>
<cp:coreProperties xmlns:cp="http://x" xmlns:dc="http://purl.org/dc/elements/1.1/"
                   xmlns:dcterms="http://purl.org/dc/terms/">
  <dc:title>Quarterly Report</dc:title>
  <dc:creator>Ada Lovelace</dc:creator>
  <dcterms:created>2026-02-01T09:00:00Z</dcterms:created>
</cp:coreProperties>"#;
    let rels = r#"<?xml version="1.0"?>
<Relationships xmlns="http://schemas.openxmlformats.org/package/2006/relationships">
  <Relationship Id="rId4" Type="hyperlink" Target="https://example.invalid/detail"/>
</Relationships>"#;
    let body = [
        r#"<w:p><w:pPr><w:pStyle w:val="Heading1"/></w:pPr><w:r><w:t>Summary</w:t></w:r></w:p>"#,
        r#"<w:p><w:r><w:t>Revenue </w:t></w:r>"#,
        r#"<w:r><w:rPr><w:b/></w:rPr><w:t>rose</w:t></w:r>"#,
        r#"<w:r><w:t> — see </w:t></w:r>"#,
        r#"<w:hyperlink r:id="rId4"><w:r><w:t>the detail</w:t></w:r></w:hyperlink></w:p>"#,
        r#"<w:p><w:pPr><w:numPr><w:ilvl w:val="0"/></w:numPr></w:pPr><w:r><w:t>EMEA up</w:t></w:r></w:p>"#,
        r#"<w:p><w:pPr><w:numPr><w:ilvl w:val="0"/></w:numPr></w:pPr><w:r><w:t>APAC flat</w:t></w:r></w:p>"#,
        r#"<w:tbl>"#,
        r#"<w:tr><w:tc><w:p><w:r><w:t>region</w:t></w:r></w:p></w:tc>"#,
        r#"<w:tc><w:p><w:r><w:t>eur</w:t></w:r></w:p></w:tc></w:tr>"#,
        r#"<w:tr><w:tc><w:p><w:r><w:t>EMEA</w:t></w:r></w:p></w:tc>"#,
        r#"<w:tc><w:p><w:r><w:t>1200</w:t></w:r></w:p></w:tc></w:tr>"#,
        r#"</w:tbl>"#,
    ]
    .concat();
    docx_full(&body, Some(core), Some(rels))
}

fn pptx_bytes() -> Vec<u8> {
    let one = slide_text(&["Agenda", "Numbers, then questions"]);
    let two = slide_text(&["Numbers"]);
    pptx(
        &[&one, &two],
        &[(
            1,
            "<a:p><a:r><a:t>Keep this to five minutes.</a:t></a:r></a:p>",
        )],
    )
}

fn epub_bytes() -> Vec<u8> {
    epub(
        &[
            ("c1", "Chapter One", "It began badly."),
            ("c2", "Chapter Two", "It got worse."),
        ],
        // Spine deliberately reversed: a zip walk would emit c1 first.
        &["c2", "c1"],
    )
}

fn zip_bytes() -> Vec<u8> {
    zip_of_text(&[("notes.txt", "A loose note.\n"), ("data.csv", "k,v\n1,2\n")])
}

fn pdf_bytes() -> Vec<u8> {
    pdf(&[
        "EXECUTIVE SUMMARY",
        "Revenue rose to 1200 in the third",
        "quarter.",
    ])
}
fn wav_bytes() -> Vec<u8> {
    // 8000 samples at 8 kHz — exactly one second, so the reported duration is
    // a round number rather than a rounding artefact.
    wav(8000)
}
fn msg_bytes() -> Vec<u8> {
    msg(&[
        ("__substg1.0_0037001F", utf16("Quarterly numbers")),
        ("__substg1.0_0C1A001F", utf16("Ada <ada@example.invalid>")),
        (
            "__substg1.0_0E04001F",
            utf16("Grace <grace@example.invalid>"),
        ),
        (
            "__substg1.0_1000001F",
            utf16("Numbers attached.\n\nRegards,\nAda"),
        ),
        ("__substg1.0_3707001F", utf16("q3.xlsx")),
    ])
}

fn yaml_front_matter() -> ConvertOptions {
    ConvertOptions {
        output: RenderOptions {
            front_matter: FrontMatter::Yaml,
            ..RenderOptions::default()
        },
        ..ConvertOptions::default()
    }
}

fn html_tables() -> ConvertOptions {
    ConvertOptions {
        output: RenderOptions {
            tables: TableStyle::Html,
            ..RenderOptions::default()
        },
        ..ConvertOptions::default()
    }
}

fn csv_tables() -> ConvertOptions {
    ConvertOptions {
        output: RenderOptions {
            tables: TableStyle::Csv,
            ..RenderOptions::default()
        },
        ..ConvertOptions::default()
    }
}

fn heading_offset() -> ConvertOptions {
    ConvertOptions {
        output: RenderOptions {
            heading_offset: 2,
            ..RenderOptions::default()
        },
        ..ConvertOptions::default()
    }
}

fn templated() -> ConvertOptions {
    let blocks = vec![(
        "table".to_owned(),
        "**{{ block.rows | length }} row(s)**\n\n{{ gfm_table(block) }}".to_owned(),
    )];
    ConvertOptions {
        templates: Some(TemplateSpec {
            document: Some("---\nsource: {{ source.filename }}\n---\n\n{{ body }}".to_owned()),
            blocks,
        }),
        ..ConvertOptions::default()
    }
}

fn truncating() -> ConvertOptions {
    ConvertOptions {
        limits: Limits {
            max_table_rows: 2,
            ..Limits::default()
        },
        ..ConvertOptions::default()
    }
}

fn text_only() -> ConvertOptions {
    ConvertOptions {
        formats: FormatSelection {
            enable: Some(vec!["text".to_owned()]),
        },
        ..ConvertOptions::default()
    }
}

const WIDE_CSV: &str = "n\n1\n2\n3\n4\n5\n";

/// Every case in this build.
///
/// A function rather than a `const` array so the format groups can be
/// `cfg`-gated: a case whose converter is not compiled in would otherwise
/// fail with "unsupported" and record that as its expected output.
fn cases() -> Vec<Case> {
    let mut v = vec![
        // --- text family, always compiled in --------------------------
        Case { name: "text-paragraphs", filename: "notes.txt", input: Input::Text(TEXT_SRC), options: default_options },
        Case { name: "markdown-passthrough", filename: "notes.md", input: Input::Text(MARKDOWN_SRC), options: default_options },
        Case { name: "csv-table", filename: "revenue.csv", input: Input::Text(CSV_SRC), options: default_options },
        Case { name: "json-tabular", filename: "rows.json", input: Input::Text(JSON_TABLE_SRC), options: default_options },
        Case { name: "json-nested", filename: "tree.json", input: Input::Text(JSON_NESTED_SRC), options: default_options },
        Case { name: "ipynb-notebook", filename: "analysis.ipynb", input: Input::Text(IPYNB_SRC), options: default_options },
        Case { name: "xml-tree", filename: "order.xml", input: Input::Text(XML_SRC), options: default_options },
        Case { name: "rss-feed", filename: "notes.rss", input: Input::Text(RSS_SRC), options: default_options },
        // --- render options, exercised on one stable input ------------
        Case { name: "csv-front-matter", filename: "revenue.csv", input: Input::Text(CSV_SRC), options: yaml_front_matter },
        Case { name: "csv-html-tables", filename: "revenue.csv", input: Input::Text(CSV_SRC), options: html_tables },
        Case { name: "csv-csv-tables", filename: "revenue.csv", input: Input::Text(CSV_SRC), options: csv_tables },
        Case { name: "csv-templated", filename: "revenue.csv", input: Input::Text(CSV_SRC), options: templated },
        Case { name: "csv-truncated", filename: "wide.csv", input: Input::Text(WIDE_CSV), options: truncating },
        Case { name: "csv-format-disabled", filename: "revenue.csv", input: Input::Text(CSV_SRC), options: text_only },
        Case { name: "markdown-heading-offset", filename: "notes.md", input: Input::Text(MARKDOWN_SRC), options: heading_offset },
    ];
    v.push(Case { name: "html-page", filename: "quarterly.html", input: Input::Text(HTML_SRC), options: default_options });
    {
        v.push(Case { name: "docx-report", filename: "report.docx", input: Input::Built(docx_bytes), options: default_options });
        v.push(Case { name: "pptx-deck", filename: "deck.pptx", input: Input::Built(pptx_bytes), options: default_options });
        v.push(Case { name: "epub-spine-order", filename: "book.epub", input: Input::Built(epub_bytes), options: default_options });
        v.push(Case { name: "zip-archive", filename: "bundle.zip", input: Input::Built(zip_bytes), options: default_options });
    }
    v.push(Case { name: "pdf-text-layer", filename: "summary.pdf", input: Input::Built(pdf_bytes), options: default_options });
    {
        // Both record the metadata-only output an operator gets with
        // enrichment off, warning included. That warning is the contract:
        // a thin document must not look like a complete one.
        v.push(Case { name: "image-metadata-only", filename: "chart.png", input: Input::Built(png), options: default_options });
        v.push(Case { name: "audio-metadata-only", filename: "clip.wav", input: Input::Built(wav_bytes), options: default_options });
    }
    v.push(Case { name: "msg-outlook", filename: "mail.msg", input: Input::Built(msg_bytes), options: default_options });

    v
}



#[test]
fn every_case_has_a_distinct_name() {
    let all = cases();
    let mut names: Vec<&str> = all.iter().map(|c| c.name).collect();
    names.sort_unstable();
    let before = names.len();
    names.dedup();
    assert_eq!(before, names.len(), "duplicate case name shadows a golden");
}

#[test]
fn the_corpus_covers_every_compiled_converter() {
    // A converter with no golden case is one whose output can change
    // unnoticed, which would leave a hole exactly where this module is
    // supposed to be load-bearing.
    //
    // `spreadsheet` is the one documented exception: calamine reads but
    // does not write, so a fixture would mean either a committed binary
    // blob (unreviewable, and it would ride into the OSS mirror) or a
    // writer dependency. Its behaviour stays covered by unit tests.
    const EXEMPT: &[&str] = &["spreadsheet"];

    let rendered: Vec<String> = cases().iter().map(render).collect();
    let missing: Vec<&str> = mcpg_markdown_convert::available_formats()
        .into_iter()
        .filter(|f| !EXEMPT.contains(f))
        .filter(|f| {
            let marker = format!("<!-- converter: {f} via");
            !rendered.iter().any(|r| r.contains(&marker))
        })
        .collect();
    assert!(
        missing.is_empty(),
        "converters with no golden case: {missing:?}"
    );
}

#[test]
fn builders_are_deterministic() {
    // The golden corpus diffs rendered output byte-for-byte. A builder
    // that varied between calls would make it flap rather than fail.
    assert_eq!(docx("<w:p/>"), docx("<w:p/>"));
    assert_eq!(pdf(&["a"]), pdf(&["a"]));
    assert_eq!(zip_of_text(&[("a", "b")]), zip_of_text(&[("a", "b")]));
}

#[test]
fn the_docx_builder_produces_a_readable_container() {
    let bytes = docx("<w:p><w:r><w:t>hi</w:t></w:r></w:p>");
    assert!(bytes.starts_with(b"PK\x03\x04"));
    let mut z = zip::ZipArchive::new(Cursor::new(bytes)).expect("valid zip");
    assert!(z.by_name("word/document.xml").is_ok());
}

#[test]
fn the_pdf_builder_produces_a_loadable_document() {
    let bytes = pdf(&["hello"]);
    assert!(bytes.starts_with(b"%PDF-"));
    assert!(bytes.ends_with(b"%%EOF\n"));
}

//! Web pages.

use mcpg_markdown_convert::converters::html::HtmlConverter;
use mcpg_markdown_convert::converters::media::AudioRead;
use mcpg_markdown_convert::converters::pdf::PdfFile;
use mcpg_markdown_convert::converters::sheet::Sheet;
use mcpg_markdown_convert::{Block, Probe, WarningKind};
use mcpg_markdown_convert::{Budget, ConvertCx, Limits};
use mcpg_markdown_convert::{Converter, Document, StreamInfo};
use mcpg_markdown_convert::{Extracted, Extractor, Parsed, Written};

/// Turns HTML into Markdown and does nothing else.
#[derive(Clone, Copy)]
struct Host;

impl Extractor for Host {
    fn pdf_file(&self, _bytes: &[u8]) -> Extracted<PdfFile> {
        Extracted::Panicked
    }

    fn pdf_pages(&self, _bytes: &[u8]) -> Extracted<Vec<String>> {
        Extracted::Panicked
    }

    fn sheets(&self, _bytes: &[u8]) -> Extracted<Vec<Sheet>> {
        Extracted::Panicked
    }

    fn markdown(&self, html: &str) -> Extracted<String> {
        match htmd::convert(html) {
            Ok(m) => Extracted::Ready(m),
            Err(e) => Extracted::Failed(e.to_string()),
        }
    }

    fn audio(&self, _bytes: &[u8]) -> Extracted<AudioRead> {
        Extracted::Panicked
    }

    fn add_template(
        &self,
        _env: &mut minijinja::Environment<'static>,
        _name: &str,
        _source: &str,
    ) -> Parsed {
        Parsed::Panicked
    }

    fn write(
        &self,
        _env: &minijinja::Environment<'static>,
        _name: &str,
        _context: &serde_json::Value,
    ) -> Written {
        Written::Panicked
    }
}

fn convert(html: &str) -> Document {
    let mut b = Budget::new(Limits::default());
    let mut cx = ConvertCx::new(&mut b);
    HtmlConverter(Host)
        .convert(
            html.as_bytes(),
            &StreamInfo::new().with_extension("html"),
            &mut cx,
        )
        .expect("converts")
}

fn markdown(doc: &Document) -> String {
    doc.blocks
        .iter()
        .filter_map(|b| match b {
            Block::Raw { markdown } => Some(markdown.clone()),
            _ => None,
        })
        .collect::<Vec<_>>()
        .join("\n")
}

#[test]
fn headings_and_lists_survive() {
    let out = markdown(&convert(
        "<h1>Title</h1><p>Body <strong>bold</strong></p><ul><li>one</li><li>two</li></ul>",
    ));
    assert!(out.contains("# Title"), "{out}");
    assert!(out.contains("**bold**"), "{out}");
    assert!(out.contains("one"), "{out}");
}

#[test]
fn tables_become_markdown_not_prose() {
    let out = markdown(&convert(
        "<table><tr><th>a</th><th>b</th></tr><tr><td>1</td><td>2</td></tr></table>",
    ));
    assert!(out.contains('|'), "table lost its structure: {out}");
}

#[test]
fn the_title_element_becomes_the_document_title() {
    let doc = convert("<html><head><title> My  Page </title></head><body>x</body></html>");
    assert_eq!(doc.title.as_deref(), Some("My Page"));
}

#[test]
fn meta_author_is_captured() {
    let doc = convert(
        r#"<html><head><meta name="author" content="Ada"></head><body>x</body></html>"#,
    );
    assert_eq!(doc.metadata.author.as_deref(), Some("Ada"));
}

#[test]
fn script_and_style_bodies_never_reach_the_output() {
    let out = markdown(&convert(
        "<style>.a{color:red}</style><script>alert('pwn')</script><p>real</p>",
    ));
    assert!(!out.contains("alert"), "{out}");
    assert!(!out.contains("color:red"), "{out}");
    assert!(out.contains("real"), "{out}");
}

#[test]
fn comments_are_dropped() {
    let out = markdown(&convert("<!-- secret --><p>visible</p>"));
    assert!(!out.contains("secret"), "{out}");
    assert!(out.contains("visible"));
}

#[test]
fn an_unterminated_script_does_not_leak_its_body() {
    let out = markdown(&convert("<p>before</p><script>while(1){}"));
    assert!(!out.contains("while(1)"), "{out}");
    assert!(out.contains("before"));
}

#[test]
fn prose_free_html_warns_rather_than_returning_nothing() {
    let doc = convert("<html><head><title>t</title></head><body></body></html>");
    assert!(
        doc.warnings
            .iter()
            .any(|w| w.kind == WarningKind::NoTextLayer),
        "{:?}",
        doc.warnings
    );
}

#[test]
fn entities_in_a_title_are_decoded_once() {
    let doc = convert("<title>a &amp;lt; b</title><p>x</p>");
    assert_eq!(doc.title.as_deref(), Some("a &lt; b"));
}

#[test]
fn unlabelled_html_is_sniffed_from_the_doctype() {
    let p = Probe::new(b"<!DOCTYPE html><html><body>hi</body></html>");
    assert!(HtmlConverter(Host).accepts(&p, &StreamInfo::new()));
}

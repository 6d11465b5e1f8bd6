//! XML and feeds.

use mcpg_markdown_convert::converters::xml::{FeedConverter, XmlConverter};
use mcpg_markdown_convert::{Block, Probe};
use mcpg_markdown_convert::{Budget, ConvertCx, Limits};
use mcpg_markdown_convert::{Converter, Document, StreamInfo};

fn run(c: &dyn Converter, bytes: &[u8], info: &StreamInfo) -> Document {
    let mut b = Budget::new(Limits::default());
    let mut cx = ConvertCx::new(&mut b);
    c.convert(bytes, info, &mut cx).expect("converts")
}

fn plain(doc: &Document) -> String {
    doc.blocks
        .iter()
        .map(|b| match b {
            Block::Paragraph(i) | Block::Heading { text: i, .. } => i.to_plain(),
            _ => String::new(),
        })
        .collect::<Vec<_>>()
        .join("\n")
}

#[test]
fn external_entities_are_never_resolved() {
    let xxe = r#"<?xml version="1.0"?>
        <!DOCTYPE foo [<!ENTITY xxe SYSTEM "file:///etc/passwd">]>
        <root><data>&xxe;</data></root>"#;
    let doc = run(
        &XmlConverter,
        xxe.as_bytes(),
        &StreamInfo::new().with_extension("xml"),
    );
    let out = plain(&doc);
    assert!(!out.contains("root:"), "entity was expanded: {out}");
    assert!(!out.contains("/etc/passwd"), "entity was expanded: {out}");
}

#[test]
fn billion_laughs_does_not_expand() {
    let bomb = r#"<?xml version="1.0"?>
        <!DOCTYPE lolz [
          <!ENTITY lol "lol">
          <!ENTITY lol2 "&lol;&lol;&lol;&lol;&lol;&lol;&lol;&lol;&lol;&lol;">
          <!ENTITY lol3 "&lol2;&lol2;&lol2;&lol2;&lol2;&lol2;&lol2;&lol2;">
        ]>
        <lolz>&lol3;</lolz>"#;
    let doc = run(
        &XmlConverter,
        bomb.as_bytes(),
        &StreamInfo::new().with_extension("xml"),
    );
    assert!(plain(&doc).len() < 500, "expansion occurred");
}

#[test]
fn nested_text_reaches_the_output_in_document_order() {
    let xml = "<root><a>first</a><b>second</b></root>";
    let doc = run(
        &XmlConverter,
        xml.as_bytes(),
        &StreamInfo::new().with_extension("xml"),
    );
    let out = plain(&doc);
    let ia = out.find("first").expect("first present");
    let ib = out.find("second").expect("second present");
    assert!(ia < ib, "document order lost: {out}");
}

#[test]
fn attribute_only_elements_are_not_dropped() {
    let xml = r#"<root><item id="7" state="open"/></root>"#;
    let doc = run(
        &XmlConverter,
        xml.as_bytes(),
        &StreamInfo::new().with_extension("xml"),
    );
    let out = plain(&doc);
    assert!(out.contains("id=7"), "{out}");
}

#[test]
fn malformed_close_tags_do_not_lose_the_document() {
    let xml = "<root><a>text</b></root>";
    let doc = run(
        &XmlConverter,
        xml.as_bytes(),
        &StreamInfo::new().with_extension("xml"),
    );
    assert!(plain(&doc).contains("text"));
}

// --- feeds ------------------------------------------------------------

const RSS: &str = r#"<?xml version="1.0"?>
    <rss version="2.0"><channel>
      <title>My Feed</title>
      <item>
        <title>First post</title>
        <link>https://example.invalid/1</link>
        <pubDate>Mon, 01 Jan 2026 00:00:00 GMT</pubDate>
        <description>Hello there</description>
      </item>
      <item>
        <title>Second post</title>
        <link>https://example.invalid/2</link>
      </item>
    </channel></rss>"#;

#[test]
fn rss_entries_become_headings_in_feed_order() {
    let si = StreamInfo::new().with_extension("rss");
    let doc = run(&FeedConverter, RSS.as_bytes(), &si);
    assert_eq!(doc.title.as_deref(), Some("My Feed"));
    let headings: Vec<String> = doc
        .blocks
        .iter()
        .filter_map(|b| match b {
            Block::Heading { text, .. } => Some(text.to_plain()),
            _ => None,
        })
        .collect();
    assert_eq!(headings, vec!["First post", "Second post"]);
}

#[test]
fn rss_carries_link_and_summary() {
    let si = StreamInfo::new().with_extension("rss");
    let doc = run(&FeedConverter, RSS.as_bytes(), &si);
    let out = format!("{:?}", doc.blocks);
    assert!(out.contains("example.invalid/1"));
    assert!(out.contains("Hello there"));
}

#[test]
fn atom_link_href_attributes_are_read() {
    let atom = r#"<?xml version="1.0"?>
        <feed xmlns="http://www.w3.org/2005/Atom">
          <title>Atomic</title>
          <entry>
            <title>Entry one</title>
            <link href="https://example.invalid/a"/>
            <summary>Body</summary>
          </entry>
        </feed>"#;
    let si = StreamInfo::new().with_extension("atom");
    let doc = run(&FeedConverter, atom.as_bytes(), &si);
    assert!(format!("{:?}", doc.blocks).contains("example.invalid/a"));
}

#[test]
fn a_feed_in_a_dot_xml_file_is_still_recognised() {
    let p = Probe::new(RSS.as_bytes());
    let si = StreamInfo::new().with_extension("xml");
    assert!(FeedConverter.accepts(&p, &si));
    // ...and the generic converter stands aside once the feed one has it.
    let feed_si = StreamInfo::new().with_extension("rss");
    assert!(!XmlConverter.accepts(&p, &feed_si));
}

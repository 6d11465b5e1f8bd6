//! Plain text and Markdown.

use vstd::prelude::*;
use crate::chars;
use crate::converters;
use crate::converters::{decode_info, paragraphs};
use crate::cx::{ConvertCx, CxV};
use crate::error::{ConvertError, ErrorV};
use crate::ir;
use crate::ir::{Block, BlockV, Document, DocumentV};
use crate::registry::{Converter, PRIORITY_GENERIC};
use crate::stream_info::{Probe, ProbeV, StreamInfo, StreamInfoV};
use crate::text;

verus! {

/// Plain text, and Markdown as it is.
pub struct TextConverter;

/// Text of a kind that has a converter of its own.
pub open spec fn is_specialised(m: Seq<char>) -> bool {
    m == "text/html"@ || m == "text/xml"@ || m == "text/csv"@ || m == "text/tab-separated-values"@
}

pub open spec fn text_takes(probe: ProbeV, info: StreamInfoV) -> bool {
    probe.looks_textual() && (match info.mimetype {
        Some(m) => m == "text/plain"@ || m == "text/markdown"@ || m == "application/octet-stream"@
            || (chars::starts_with(m, "text/"@) && !is_specialised(m)),
        None => true,
    })
}

pub open spec fn is_markdown(info: StreamInfoV) -> bool {
    info.is_mime("text/markdown"@) || info.is_ext("md"@) || info.is_ext("markdown"@)
}

/// The first line that starts with a hash and a space.
pub open spec fn hash_line(lines: Seq<Seq<char>>) -> Option<Seq<char>>
    decreases lines.len(),
{
    if lines.len() == 0 {
        None
    } else if chars::starts_with(lines[0], "# "@) {
        Some(lines[0])
    } else {
        hash_line(lines.skip(1))
    }
}

/// A heading line without its hashes.
pub open spec fn heading_text(line: Seq<char>) -> Seq<char> {
    chars::trim(chars::trim_start_char(line, '#'))
}

/// The text of the first top-level heading, unless it is empty.
pub open spec fn spec_first_atx_heading(s: Seq<char>) -> Option<Seq<char>> {
    match hash_line(chars::lines(s)) {
        Some(l) => if heading_text(l).len() > 0 {
            Some(heading_text(l))
        } else {
            None
        },
        None => None,
    }
}

pub open spec fn text_document(s: Seq<char>, markdown: bool) -> DocumentV {
    let empty = ir::empty_document();
    if markdown {
        DocumentV {
            title: spec_first_atx_heading(s),
            blocks: if chars::is_blank(s) {
                seq![]
            } else {
                seq![BlockV::Raw { markdown: chars::trim_end(s) }]
            },
            ..empty
        }
    } else {
        empty.extended(converters::spec_paragraphs(s))
    }
}

impl Converter for TextConverter {
    open spec fn named(&self) -> Seq<char> {
        "text"@
    }

    open spec fn ranked(&self) -> i32 {
        150
    }

    open spec fn takes(&self, probe: ProbeV, info: StreamInfoV) -> bool {
        text_takes(probe, info)
    }

    open spec fn converts(
        &self,
        bytes: Seq<u8>,
        info: StreamInfoV,
        pre: CxV,
        post: CxV,
        r: Result<DocumentV, ErrorV>,
    ) -> bool {
        post == pre && r == Ok::<DocumentV, ErrorV>(
            text_document(converters::spec_decode_text(bytes, info.charset), is_markdown(info)),
        )
    }

    fn name(&self) -> (r: &'static str) {
        "text"
    }

    fn priority(&self) -> (r: i32) {
        PRIORITY_GENERIC + 50
    }

    fn accepts(&self, probe: &Probe<'_>, info: &StreamInfo) -> (r: bool) {
        if !probe.looks_textual() {
            return false;
        }
        match &info.mimetype {
            Some(m) => text::eq(m, "text/plain") || text::eq(m, "text/markdown") || text::eq(
                m,
                "application/octet-stream",
            ) || (text::starts_with(m, "text/") && !(text::eq(m, "text/html") || text::eq(
                m,
                "text/xml",
            ) || text::eq(m, "text/csv") || text::eq(m, "text/tab-separated-values"))),
            None => true,
        }
    }

    fn convert(&self, bytes: &[u8], info: &StreamInfo, cx: &mut ConvertCx<'_>) -> (r: Result<
        Document,
        ConvertError,
    >) {
        let s = decode_info(bytes, &info.charset);
        let markdown: bool = info.is_mime("text/markdown") || info.is_ext("md") || info.is_ext(
            "markdown",
        );
        Ok(document_of(&s, markdown))
    }
}

/// The document of a text: Markdown as it is, titled by its first heading, or
/// the paragraphs of plain text.
pub fn document_of(s: &str, markdown: bool) -> (r: Document)
    ensures
        r@ == text_document(s@, markdown),
{
    let mut doc = Document::new();
    if markdown {
        doc.title = first_atx_heading(s);
        if !text::is_blank(s) {
            doc.push(Block::Raw { markdown: text::trim_end(s) });
        }
        assert(doc@ =~= text_document(s@, true));
        return doc;
    }
    doc.push_all(paragraphs(s));
    doc
}

/// The first line that starts with a hash and a space.
pub(crate) fn find_hash_line(s: &str) -> (r: Option<String>)
    ensures
        chars::opt(r) == hash_line(chars::lines(s@)),
{
    let ls = text::lines(s);
    let ghost v = chars::texts(ls@);
    let mut i: usize = 0;
    assert(v.skip(0) =~= v);
    while i < ls.len()
        invariant
            i <= ls@.len(),
            v == chars::texts(ls@),
            v == chars::lines(s@),
            hash_line(v) == hash_line(v.skip(i as int)),
        decreases ls@.len() - i,
    {
        assert(v.skip(i as int)[0] == ls@[i as int]@);
        assert(v.skip(i as int).skip(1) =~= v.skip(i + 1));
        if text::starts_with(&ls[i], "# ") {
            return Some(ls[i].clone());
        }
        i += 1;
    }
    None
}

/// A heading line without its hashes.
pub(crate) fn strip_hashes(line: &str) -> (r: String)
    ensures
        r@ == heading_text(line@),
{
    let a = text::trim_start_char(line, '#');
    text::trim(&a)
}

fn first_atx_heading(s: &str) -> (r: Option<String>)
    ensures
        chars::opt(r) == spec_first_atx_heading(s@),
{
    match find_hash_line(s) {
        Some(l) => {
            let t = strip_hashes(&l);
            if text::is_empty(&t) {
                None
            } else {
                Some(t)
            }
        },
        None => None,
    }
}

} // verus!

//! PDF files.

use vstd::prelude::*;
use crate::bytes;
use crate::chars;
use crate::converters;
use crate::converters::extract::{Extracted, ExtractedV, Extractor};
use crate::converters::squeeze;
use crate::cx;
use crate::cx::{ConvertCx, CxV};
use crate::detect;
use crate::error::{ConvertError, ErrorV, Warning, WarningKind, WarningV};
use crate::ir;
use crate::ir::{Block, BlockV, Document, DocumentV, Inline, MetadataV, SpanV};
use crate::registry;
use crate::registry::{Converter, PRIORITY_SPECIFIC};
use crate::stream_info::{Probe, ProbeV, StreamInfo, StreamInfoV};
use crate::text;

verus! {

/// Lists the pages without a text layer, under this metadata key.
pub const SCANNED_PAGES_KEY: &'static str = "pdf_scanned_pages";

/// Gives the number of pages, under this metadata key.
pub const PAGE_COUNT_KEY: &'static str = "pdf_page_count";

pub open spec fn raw_view(o: Option<Vec<u8>>) -> Option<Seq<u8>> {
    match o {
        Some(v) => Some(v@),
        None => None,
    }
}

/// `char::is_alphabetic`, as a property of the character.
pub uninterp spec fn alphabetic(c: char) -> bool;

/// `char::is_alphabetic`: the answer depends on the character alone; of ASCII
/// characters the letters are alphabetic.
#[verifier::external_body]
fn is_alphabetic(c: char) -> (r: bool)
    ensures
        r == alphabetic(c),
        c as u32 <= 0x7f ==> r == (chars::is_ascii_upper(c) || chars::is_ascii_lower(c)),
{
    c.is_alphabetic()
}

/// `char::is_uppercase`, as a property of the character.
pub uninterp spec fn uppercase(c: char) -> bool;

/// `char::is_uppercase`: the answer depends on the character alone; of ASCII
/// characters `A` to `Z` are upper case.
#[verifier::external_body]
fn is_uppercase(c: char) -> (r: bool)
    ensures
        r == uppercase(c),
        c as u32 <= 0x7f ==> r == chars::is_ascii_upper(c),
{
    c.is_uppercase()
}

/// PDF files; the host loads them and extracts the text of their pages.
pub struct PdfConverter<X>(pub X);

pub open spec fn pdf_takes(probe: ProbeV, info: StreamInfoV) -> bool {
    probe.starts_with(detect::pdf_magic()) || ((info.is_ext("pdf"@) || info.is_mime(
        "application/pdf"@,
    )) && probe.contains(detect::pdf_magic()))
}

/// A PDF string as text: UTF-16 behind its byte-order mark, else one character
/// per byte.
pub open spec fn spec_decode_pdf_string(raw: Seq<u8>) -> Seq<char> {
    if bytes::spec_starts_with(raw, seq![0xfeu8, 0xff]) {
        bytes::utf16_text(bytes::units_of(raw.skip(2), true))
    } else {
        Seq::new(raw.len(), |i: int| raw[i] as char)
    }
}

/// The text of an information string, where anything is left of it.
pub open spec fn info_text(raw: Option<Seq<u8>>) -> Option<Seq<char>> {
    match raw {
        Some(v) => {
            let s = converters::spec_squeeze(spec_decode_pdf_string(v));
            if s.len() == 0 {
                None
            } else {
                Some(s)
            }
        },
        None => None,
    }
}

/// The information dictionary's strings.
#[verifier::ext_equal]
pub struct PdfInfoV {
    pub title: Option<Seq<u8>>,
    pub author: Option<Seq<u8>>,
    pub created: Option<Seq<u8>>,
    pub modified: Option<Seq<u8>>,
    pub subject: Option<Seq<u8>>,
    pub keywords: Option<Seq<u8>>,
    pub producer: Option<Seq<u8>>,
    pub creator: Option<Seq<u8>>,
}

/// What the host loads of a file before its pages.
pub struct PdfFile {
    pub encrypted: bool,
    pub info: PdfInfo,
}

/// The value of a [`PdfFile`].
#[verifier::ext_equal]
pub struct PdfFileV {
    pub encrypted: bool,
    pub info: PdfInfoV,
}

impl View for PdfFile {
    type V = PdfFileV;

    open spec fn view(&self) -> PdfFileV {
        PdfFileV { encrypted: self.encrypted, info: self.info@ }
    }
}

pub open spec fn file_view(r: Extracted<PdfFile>) -> ExtractedV<PdfFileV> {
    match r {
        Extracted::Ready(f) => ExtractedV::Ready(f@),
        Extracted::Failed(m) => ExtractedV::Failed(m@),
        Extracted::Panicked => ExtractedV::Panicked,
    }
}

pub open spec fn with_info(m: MetadataV, key: Seq<char>, raw: Option<Seq<u8>>) -> MetadataV {
    match info_text(raw) {
        Some(v) => m.with(key, v),
        None => m,
    }
}

/// The document that the information dictionary describes.
pub open spec fn info_document(i: PdfInfoV) -> DocumentV {
    let m = MetadataV {
        author: info_text(i.author),
        created: info_text(i.created),
        modified: info_text(i.modified),
        ..ir::empty_metadata()
    };
    DocumentV {
        title: info_text(i.title),
        metadata: with_info(
            with_info(
                with_info(with_info(m, "subject"@, i.subject), "keywords"@, i.keywords),
                "producer"@,
                i.producer,
            ),
            "creator"@,
            i.creator,
        ),
        ..ir::empty_document()
    }
}

/// What loading a file gives: its information, or why it cannot be read.
pub open spec fn open_result(file: ExtractedV<PdfFileV>) -> Result<DocumentV, ErrorV> {
    match file {
        ExtractedV::Panicked => Err(ErrorV::ConverterPanic { format: "pdf"@ }),
        ExtractedV::Failed(m) => Err(ErrorV::Malformed { format: "pdf"@, message: m }),
        ExtractedV::Ready(f) => if f.encrypted {
            Err(ErrorV::Encrypted { format: "pdf"@ })
        } else {
            Ok(info_document(f.info))
        },
    }
}

pub open spec fn number_char(c: char) -> bool {
    chars::is_digit(c) || c == '.' || c == ')'
}

/// Whether a line starts with a section number, and how deep that is.
pub open spec fn section_depth(line: Seq<char>) -> Option<nat> {
    match chars::split_once(line, " "@) {
        Some(p) => if !chars::is_blank(p.1) && (forall|i: int|
            0 <= i < p.0.len() ==> number_char(#[trigger] p.0[i])) && (exists|i: int|
            0 <= i < p.0.len() && chars::is_digit(#[trigger] p.0[i])) {
            Some(converters::csv::occurrences(p.0, '.'))
        } else {
            None
        },
        None => None,
    }
}

pub open spec fn ends_a_clause(line: Seq<char>) -> bool {
    line.len() > 0 && (line.last() == '.' || line.last() == ',' || line.last() == ';'
        || line.last() == ':')
}

pub open spec fn shouts(line: Seq<char>) -> bool {
    forall|i: int| 0 <= i < line.len() && alphabetic(#[trigger] line[i]) ==> uppercase(line[i])
}

/// The heading level of a line that has the shape of a heading: short, not
/// ending a clause, with a letter in it, and numbered or in capitals.
pub open spec fn spec_heading_shape(para: Seq<char>) -> Option<u8> {
    let line = chars::trim(para);
    if line.contains('\n') || chars::byte_len(line) > 80 || chars::byte_len(line) < 3 {
        None
    } else if ends_a_clause(line) || chars::words(line).len() > 12 || !(exists|i: int|
        0 <= i < line.len() && alphabetic(#[trigger] line[i])) {
        None
    } else {
        match section_depth(line) {
            Some(n) => if n < 4 {
                Some((n + 1) as u8)
            } else {
                Some(5u8)
            },
            None => if shouts(line) {
                Some(2u8)
            } else {
                None
            },
        }
    }
}

/// A paragraph with one more line; a hyphen at the end of what there is joins
/// the two halves of a word.
pub open spec fn rejoin_line(out: Seq<char>, line: Seq<char>) -> Seq<char> {
    let t = chars::trim(line);
    if t.len() == 0 {
        out
    } else if out.len() == 0 {
        t
    } else if out.last() == '-' {
        out.drop_last() + t
    } else {
        out.push(' ') + t
    }
}

pub open spec fn rejoin_lines(ls: Seq<Seq<char>>) -> Seq<char>
    decreases ls.len(),
{
    if ls.len() == 0 {
        seq![]
    } else {
        rejoin_line(rejoin_lines(ls.drop_last()), ls.last())
    }
}

/// The lines of a paragraph as one line.
pub open spec fn spec_rejoin(para: Seq<char>) -> Seq<char> {
    converters::spec_squeeze(rejoin_lines(chars::lines(para)))
}

/// A page as far as it has been read.
#[verifier::ext_equal]
pub struct PageV {
    pub blocks: Seq<BlockV>,
    pub pending: Seq<Seq<char>>,
    pub fired: bool,
}

impl PageV {
    /// The page with its pending lines as a paragraph.
    pub open spec fn flushed(self) -> PageV {
        if self.pending.len() == 0 {
            self
        } else {
            let joined = spec_rejoin(chars::join(self.pending, "\n"@));
            PageV {
                pending: seq![],
                blocks: if joined.len() == 0 {
                    self.blocks
                } else {
                    self.blocks.push(BlockV::Paragraph(seq![SpanV::Text(joined)]))
                },
                ..self
            }
        }
    }

    pub open spec fn with_line(self, line: Seq<char>) -> PageV {
        let t = chars::trim(line);
        if t.len() == 0 {
            self.flushed()
        } else {
            match spec_heading_shape(t) {
                Some(level) => PageV {
                    blocks: self.flushed().blocks.push(
                        BlockV::Heading {
                            level,
                            text: seq![SpanV::Text(converters::spec_squeeze(t))],
                        },
                    ),
                    fired: true,
                    ..self.flushed()
                },
                None => PageV { pending: self.pending.push(line), ..self },
            }
        }
    }
}

pub open spec fn page_run(ls: Seq<Seq<char>>, fired: bool) -> PageV
    decreases ls.len(),
{
    if ls.len() == 0 {
        PageV { blocks: seq![], pending: seq![], fired }
    } else {
        page_run(ls.drop_last(), fired).with_line(ls.last())
    }
}

/// A page's blocks, and whether any heading has been guessed so far.
pub open spec fn spec_page_blocks(page: Seq<char>, fired: bool) -> PageV {
    page_run(chars::lines(page), fired).flushed()
}

pub open spec fn numbers(pages: Seq<usize>) -> Seq<Seq<char>> {
    Seq::new(pages.len(), |i: int| chars::decimal(pages[i] as nat))
}

/// Page numbers for a message: all of them, or the first and how many more.
pub open spec fn spec_page_list(pages: Seq<usize>) -> Seq<char> {
    if pages.len() <= 12 {
        chars::join(numbers(pages), ", "@)
    } else {
        chars::join(numbers(pages.take(12)), ", "@) + ", … and "@ + chars::decimal(
            (pages.len() - 12) as nat,
        ) + " more"@
    }
}

/// The pages as far as they have been read.
#[verifier::ext_equal]
pub struct PagesV {
    pub doc: DocumentV,
    pub empty: Seq<usize>,
    pub fired: bool,
}

/// The pages from the `i`-th on.
/// The clock is read before the `i`-th page or a later one, with the context
/// as it then is.
pub open spec fn page_reached(pages: Seq<Seq<char>>, i: int, c: CxV, at: CxV) -> bool
    decreases pages.len() - i,
{
    0 <= i < pages.len() && (at == c || {
        let n = chars::byte_len(pages[i]) as u64;
        !c.budget().expand_fails(n) && page_reached(
            pages,
            i + 1,
            c.with_budget(c.budget().expand(n)),
            at,
        )
    })
}

pub open spec fn pages_from(pages: Seq<Seq<char>>, i: int, s: PagesV, c: CxV) -> (
    Result<PagesV, ErrorV>,
    CxV,
)
    decreases pages.len() - i,
{
    if i < 0 || i >= pages.len() {
        (Ok(s), c)
    } else {
        let n = chars::byte_len(pages[i]) as u64;
        let after = c.with_budget(c.budget().expand(n));
        if c.budget().expand_fails(n) {
            (
                Err(
                    cx::limit_error(
                        "max_expanded_bytes"@,
                        after.expanded,
                        c.limits.max_expanded_bytes,
                    ),
                ),
                after,
            )
        } else if chars::is_blank(pages[i]) {
            pages_from(
                pages,
                i + 1,
                PagesV { empty: s.empty.push((i + 1) as usize), ..s },
                after,
            )
        } else {
            let p = spec_page_blocks(pages[i], s.fired);
            pages_from(
                pages,
                i + 1,
                PagesV { doc: s.doc.extended(p.blocks), fired: p.fired, ..s },
                after,
            )
        }
    }
}

/// The document with what is said of the pages that had no text.
pub open spec fn with_empty_pages(d: DocumentV, empty: Seq<usize>, total: nat) -> DocumentV {
    if empty.len() == 0 {
        d
    } else {
        let w = d.warned(
            WarningV {
                kind: WarningKind::NoTextLayer,
                message: chars::decimal(empty.len()) + " of "@ + chars::decimal(total)
                    + " pages carried no extractable text ("@ + spec_page_list(empty)
                    + "); they are probably scanned images and need OCR"@,
            },
        );
        DocumentV {
            metadata: w.metadata.with(
                "pdf_scanned_pages"@,
                chars::join(numbers(empty), ","@),
            ).with("pdf_page_count"@, chars::decimal(total)),
            ..w
        }
    }
}

pub open spec fn with_guesses(d: DocumentV, fired: bool) -> DocumentV {
    if fired {
        d.warned(
            WarningV {
                kind: WarningKind::HeuristicApplied,
                message:
                    "headings were inferred from line shape, not from font metrics; PDF extraction here is text-only (no columns, no table reconstruction)"@,
            },
        )
    } else {
        d
    }
}

pub open spec fn titled_by(d: DocumentV, info: StreamInfoV) -> DocumentV {
    match (d.title, info.filename) {
        (None, Some(f)) => d.titled(f),
        _ => d,
    }
}

/// The document after its last page.
pub open spec fn finish_pdf(s: PagesV, total: nat, info: StreamInfoV) -> DocumentV {
    let d = with_guesses(with_empty_pages(s.doc, s.empty, total), s.fired);
    let e = if d.blocks.len() == 0 && s.empty.len() == total {
        d.warned(
            WarningV {
                kind: WarningKind::Degraded,
                message: "no text at all was extracted"@,
            },
        )
    } else {
        d
    };
    titled_by(e, info)
}

/// What an error of the text extraction means.
pub open spec fn extraction_error(message: Seq<char>) -> ErrorV {
    if chars::contains(chars::lower(message), "encrypt"@) {
        ErrorV::Encrypted { format: "pdf"@ }
    } else {
        ErrorV::Malformed { format: "pdf"@, message }
    }
}

/// What a file becomes, given its information and the text of its pages.
pub open spec fn pdf_result(
    d: DocumentV,
    pages: ExtractedV<Seq<Seq<char>>>,
    info: StreamInfoV,
    pre: CxV,
) -> (Result<DocumentV, ErrorV>, CxV) {
    match pages {
        ExtractedV::Panicked => (Err(ErrorV::ConverterPanic { format: "pdf"@ }), pre),
        ExtractedV::Failed(m) => (Err(extraction_error(m)), pre),
        ExtractedV::Ready(ps) => if ps.len() == 0 {
            (
                Ok(
                    d.warned(
                        WarningV {
                            kind: WarningKind::NoTextLayer,
                            message: "the PDF has no pages"@,
                        },
                    ),
                ),
                pre,
            )
        } else {
            let run = pages_from(ps, 0, PagesV { doc: d, empty: seq![], fired: false }, pre);
            match run.0 {
                Err(e) => (Err(e), run.1),
                Ok(s) => (Ok(finish_pdf(s, ps.len(), info)), run.1),
            }
        },
    }
}

pub open spec fn pages_view(r: Extracted<Vec<String>>) -> ExtractedV<Seq<Seq<char>>> {
    match r {
        Extracted::Ready(v) => ExtractedV::Ready(chars::texts(v@)),
        Extracted::Failed(m) => ExtractedV::Failed(m@),
        Extracted::Panicked => ExtractedV::Panicked,
    }
}

/// What the pages may become: what they say, or that the time ran out before
/// one of them.
pub open spec fn pages_convert(
    d: DocumentV,
    pages: ExtractedV<Seq<Seq<char>>>,
    info: StreamInfoV,
    pre: CxV,
    post: CxV,
    r: Result<DocumentV, ErrorV>,
) -> bool {
    ||| (r, post) == pdf_result(d, pages, info, pre)
    ||| registry::late(pre, r) && (pages matches ExtractedV::Ready(ps) && page_reached(
        ps,
        0,
        pre,
        post,
    ))
}

/// What a file may become: loading it decides first, then the clock, then what
/// the host extracted.
pub open spec fn pdf_converts<X: Extractor>(
    tools: X,
    bytes: Seq<u8>,
    info: StreamInfoV,
    pre: CxV,
    post: CxV,
    r: Result<DocumentV, ErrorV>,
) -> bool {
    exists|file: ExtractedV<PdfFileV>| #[trigger]
        tools.may_load(bytes, file) && (match open_result(file) {
            Err(e) => post == pre && r == Err::<DocumentV, ErrorV>(e),
            Ok(d) => (registry::late(pre, r) && post == pre) || exists|
                pages: ExtractedV<Seq<Seq<char>>>,
            | #[trigger]
                tools.may_give_pages(bytes, pages) && pages_convert(d, pages, info, pre, post, r),
        })
}

/// Every heading that is guessed from a line's shape has a level of 1 to 5.
pub proof fn guessed_levels_are_levels(para: Seq<char>)
    ensures
        spec_heading_shape(para) matches Some(n) ==> 1 <= n <= 5,
{
}

/// A PDF string as text.
pub fn decode_pdf_string(raw: &[u8]) -> (r: String)
    ensures
        r@ == spec_decode_pdf_string(raw@),
{
    if bytes::starts_with(raw, &[0xfeu8, 0xff]) {
        assert([0xfeu8, 0xff]@ =~= seq![0xfeu8, 0xff]);
        let mut rest: Vec<u8> = Vec::new();
        let mut i: usize = 2;
        while i < raw.len()
            invariant
                2 <= i <= raw@.len(),
                rest@ =~= raw@.subrange(2, i as int),
            decreases raw@.len() - i,
        {
            rest.push(raw[i]);
            i += 1;
        }
        assert(rest@ =~= raw@.skip(2));
        return bytes::decode_utf16(rest.as_slice(), true);
    }
    assert([0xfeu8, 0xff]@ =~= seq![0xfeu8, 0xff]);
    let mut out = String::new();
    let mut i: usize = 0;
    while i < raw.len()
        invariant
            i <= raw@.len(),
            out@ =~= Seq::new(i as nat, |k: int| raw@[k] as char),
        decreases raw@.len() - i,
    {
        out.push(raw[i] as char);
        i += 1;
    }
    out
}

/// The information dictionary's strings, as they were read.
pub struct PdfInfo {
    pub title: Option<Vec<u8>>,
    pub author: Option<Vec<u8>>,
    pub created: Option<Vec<u8>>,
    pub modified: Option<Vec<u8>>,
    pub subject: Option<Vec<u8>>,
    pub keywords: Option<Vec<u8>>,
    pub producer: Option<Vec<u8>>,
    pub creator: Option<Vec<u8>>,
}

impl View for PdfInfo {
    type V = PdfInfoV;

    open spec fn view(&self) -> PdfInfoV {
        PdfInfoV {
            title: raw_view(self.title),
            author: raw_view(self.author),
            created: raw_view(self.created),
            modified: raw_view(self.modified),
            subject: raw_view(self.subject),
            keywords: raw_view(self.keywords),
            producer: raw_view(self.producer),
            creator: raw_view(self.creator),
        }
    }
}

fn text_of(raw: &Option<Vec<u8>>) -> (r: Option<String>)
    ensures
        chars::opt(r) == info_text(raw_view(*raw)),
{
    match raw {
        Some(v) => {
            let t = decode_pdf_string(v.as_slice());
            let s = squeeze(&t);
            if text::is_empty(&s) {
                None
            } else {
                Some(s)
            }
        },
        None => None,
    }
}

fn set_info(doc: &mut Document, key: &str, raw: &Option<Vec<u8>>)
    ensures
        final(doc)@ == (DocumentV {
            metadata: with_info(old(doc)@.metadata, key@, raw_view(*raw)),
            ..old(doc)@
        }),
{
    if let Some(v) = text_of(raw) {
        doc.metadata.set(key, v);
    }
}

/// The document that the information dictionary describes.
pub fn read_info(i: &PdfInfo) -> (r: Document)
    ensures
        r@ == info_document(i@),
{
    let mut doc = Document::new();
    doc.title = text_of(&i.title);
    doc.metadata.author = text_of(&i.author);
    doc.metadata.created = text_of(&i.created);
    doc.metadata.modified = text_of(&i.modified);
    set_info(&mut doc, "subject", &i.subject);
    set_info(&mut doc, "keywords", &i.keywords);
    set_info(&mut doc, "producer", &i.producer);
    set_info(&mut doc, "creator", &i.creator);
    doc
}

fn numbered(line: &str) -> (r: Option<usize>)
    ensures
        r is Some == section_depth(line@) is Some,
        r matches Some(n) ==> section_depth(line@) == Some(n as nat),
{
    match text::split_once(line, " ") {
        Some(p) => {
            if text::is_blank(&p.1) {
                return None;
            }
            let v = text::to_chars(&p.0);
            let mut any = false;
            let mut i: usize = 0;
            while i < v.len()
                invariant
                    i <= v@.len(),
                    v@ == p.0@,
                    !chars::is_blank(p.1@),
                    chars::split_once(line@, " "@) == Some((p.0@, p.1@)),
                    forall|k: int| 0 <= k < i ==> number_char(#[trigger] p.0@[k]),
                    any == exists|k: int| 0 <= k < i && chars::is_digit(#[trigger] p.0@[k]),
                decreases v@.len() - i,
            {
                let c = v[i];
                assert(c == p.0@[i as int]);
                let d = text::is_digit(c);
                if !d && c != '.' && c != ')' {
                    assert(!number_char(p.0@[i as int]));
                    return None;
                }
                if d {
                    any = true;
                }
                i += 1;
            }
            if any {
                let ghost q = chars::split_once(line@, " "@)->0;
                assert(forall|i: int| 0 <= i < q.0.len() ==> number_char(#[trigger] q.0[i]));
                assert(exists|i: int| 0 <= i < q.0.len() && chars::is_digit(#[trigger] q.0[i]));
                Some(converters::csv::count_char(&p.0, '.'))
            } else {
                None
            }
        },
        None => None,
    }
}

fn has_letter(v: &Vec<char>) -> (r: bool)
    ensures
        r == exists|i: int| 0 <= i < v@.len() && alphabetic(#[trigger] v@[i]),
{
    let mut i: usize = 0;
    while i < v.len()
        invariant
            i <= v@.len(),
            forall|k: int| 0 <= k < i ==> !alphabetic(#[trigger] v@[k]),
        decreases v@.len() - i,
    {
        if is_alphabetic(v[i]) {
            assert(alphabetic(v@[i as int]));
            return true;
        }
        i += 1;
    }
    false
}

fn all_capitals(v: &Vec<char>) -> (r: bool)
    ensures
        r == shouts(v@),
{
    let mut i: usize = 0;
    while i < v.len()
        invariant
            i <= v@.len(),
            forall|k: int|
                0 <= k < i && alphabetic(#[trigger] v@[k]) ==> uppercase(v@[k]),
        decreases v@.len() - i,
    {
        if is_alphabetic(v[i]) && !is_uppercase(v[i]) {
            assert(alphabetic(v@[i as int]));
            return false;
        }
        i += 1;
    }
    true
}

/// The heading level of a line that has the shape of a heading.
pub fn heading_shape(para: &str) -> (r: Option<u8>)
    ensures
        r == spec_heading_shape(para@),
{
    let line = text::trim(para);
    let n: usize = text::len(&line);
    if text::contains_char(&line, '\n') || n > 80 || n < 3 {
        return None;
    }
    let v = text::to_chars(&line);
    if v.len() > 0 {
        let c = v[v.len() - 1];
        if c == '.' || c == ',' || c == ';' || c == ':' {
            return None;
        }
    }
    let ws = text::words(&line);
    if ws.len() > 12 {
        return None;
    }
    if !has_letter(&v) {
        return None;
    }
    if let Some(d) = numbered(&line) {
        if d < 4 {
            return Some((d + 1) as u8);
        }
        return Some(5);
    }
    if all_capitals(&v) {
        return Some(2);
    }
    None
}

fn append_line(out: &mut String, line: &str)
    ensures
        final(out)@ == rejoin_line(old(out)@, line@),
{
    let t = text::trim(line);
    if text::is_empty(&t) {
        return ;
    }
    let v = text::to_chars(out);
    if v.len() == 0 {
        *out = t;
    } else if v[v.len() - 1] == '-' {
        let head = text::slice(&v, 0, v.len() - 1);
        assert(v@.subrange(0, v@.len() - 1) =~= v@.drop_last());
        *out = text::cat(&head, &t);
    } else {
        out.push(' ');
        text::push_str(out, &t);
    }
}

/// The lines of a paragraph as one line.
pub fn rejoin(para: &str) -> (r: String)
    ensures
        r@ == spec_rejoin(para@),
{
    let ls = text::lines(para);
    let ghost v = chars::texts(ls@);
    let mut out = String::new();
    let mut i: usize = 0;
    assert(v.take(0) =~= seq![]);
    while i < ls.len()
        invariant
            i <= ls@.len(),
            v == chars::texts(ls@),
            out@ == rejoin_lines(v.take(i as int)),
        decreases ls@.len() - i,
    {
        assert(v.take(i + 1).drop_last() =~= v.take(i as int));
        append_line(&mut out, &ls[i]);
        i += 1;
    }
    assert(v.take(v.len() as int) =~= v);
    squeeze(&out)
}

spec fn page_state(blocks: Seq<Block>, pending: Seq<String>, fired: bool) -> PageV {
    PageV { blocks: ir::blocks_view(blocks), pending: chars::texts(pending), fired }
}

fn flush(pending: &mut Vec<String>, blocks: &mut Vec<Block>)
    ensures
        forall|f: bool|
            page_state(final(blocks)@, final(pending)@, f) == (#[trigger] page_state(
                old(blocks)@,
                old(pending)@,
                f,
            )).flushed(),
        final(pending)@.len() == 0,
{
    let ghost b0 = blocks@;
    let ghost p0 = pending@;
    if pending.len() == 0 {
        return ;
    }
    let all = text::join(pending, "\n");
    let joined = rejoin(&all);
    pending.clear();
    assert(chars::texts(pending@) =~= seq![]);
    assert(page_state(b0, p0, true).pending.len() > 0);
    assert(page_state(b0, p0, false).pending.len() > 0);
    if !text::is_empty(&joined) {
        let b = Block::Paragraph(Inline::text(joined));
        proof {
            ir::lemma_blocks_push(blocks@, b);
        }
        blocks.push(b);
    }
}

/// A page's blocks; notes when a heading was guessed.
pub fn page_blocks(page: &str, heuristic_fired: &mut bool) -> (r: Vec<Block>)
    ensures
        ir::blocks_view(r@) == spec_page_blocks(page@, *old(heuristic_fired)).blocks,
        *final(heuristic_fired) == spec_page_blocks(page@, *old(heuristic_fired)).fired,
{
    let ls = text::lines(page);
    let ghost v = chars::texts(ls@);
    let ghost f0 = *heuristic_fired;
    let mut fired: bool = *heuristic_fired;
    let mut blocks: Vec<Block> = Vec::new();
    let mut pending: Vec<String> = Vec::new();
    assert(ir::blocks_view(blocks@) =~= seq![]);
    assert(chars::texts(pending@) =~= seq![]);
    assert(v.take(0) =~= seq![]);
    let mut i: usize = 0;
    while i < ls.len()
        invariant
            i <= ls@.len(),
            v == chars::texts(ls@),
            page_state(blocks@, pending@, fired) == page_run(v.take(i as int), f0),
        decreases ls@.len() - i,
    {
        assert(v.take(i + 1).drop_last() =~= v.take(i as int));
        assert(v.take(i + 1).last() == ls@[i as int]@);
        let trimmed = text::trim(&ls[i]);
        if text::is_empty(&trimmed) {
            flush(&mut pending, &mut blocks);
        } else {
            match heading_shape(&trimmed) {
                Some(level) => {
                    flush(&mut pending, &mut blocks);
                    fired = true;
                    let b = Block::Heading { level, text: Inline::text(squeeze(&trimmed)) };
                    proof {
                        ir::lemma_blocks_push(blocks@, b);
                    }
                    blocks.push(b);
                },
                None => {
                    let line = ls[i].clone();
                    proof {
                        chars::lemma_texts_push(pending@, line);
                    }
                    pending.push(line);
                },
            }
        }
        i += 1;
    }
    assert(v.take(v.len() as int) =~= v);
    flush(&mut pending, &mut blocks);
    *heuristic_fired = fired;
    blocks
}

fn numbers_to(pages: &Vec<usize>, n: usize) -> (r: Vec<String>)
    requires
        n <= pages@.len(),
    ensures
        chars::texts(r@) == numbers(pages@.take(n as int)),
{
    let mut out: Vec<String> = Vec::new();
    let mut i: usize = 0;
    while i < n
        invariant
            i <= n <= pages@.len(),
            chars::texts(out@) =~= numbers(pages@.take(i as int)),
        decreases n - i,
    {
        let d = text::decimal(pages[i] as u64);
        proof {
            chars::lemma_texts_push(out@, d);
        }
        out.push(d);
        assert(numbers(pages@.take(i + 1)) =~= numbers(pages@.take(i as int)).push(d@));
        i += 1;
    }
    out
}

/// Page numbers for a message: all of them, or the first and how many more.
pub fn page_list(pages: &Vec<usize>) -> (r: String)
    ensures
        r@ == spec_page_list(pages@),
{
    if pages.len() <= 12 {
        let ns = numbers_to(pages, pages.len());
        assert(pages@.take(pages@.len() as int) =~= pages@);
        return text::join(&ns, ", ");
    }
    let ns = numbers_to(pages, 12);
    let head = text::join(&ns, ", ");
    let n = text::decimal((pages.len() - 12) as u64);
    let t = text::cat(&head, ", … and ");
    text::cat3(&t, &n, " more")
}

fn warn_empty_pages(doc: &mut Document, empty: &Vec<usize>, total: usize)
    ensures
        final(doc)@ == with_empty_pages(old(doc)@, empty@, total as nat),
{
    if empty.len() > 0 {
        let a = text::decimal(empty.len() as u64);
        let b = text::decimal(total as u64);
        let l = page_list(empty);
        let m = text::cat3(&a, " of ", &b);
        let m2 = text::cat3(&m, " pages carried no extractable text (", &l);
        let m3 = text::cat(&m2, "); they are probably scanned images and need OCR");
        doc.warn(Warning::new(WarningKind::NoTextLayer, m3));
        let ns = numbers_to(empty, empty.len());
        assert(empty@.take(empty@.len() as int) =~= empty@);
        doc.metadata.set(SCANNED_PAGES_KEY, text::join(&ns, ","));
        doc.metadata.set(PAGE_COUNT_KEY, b);
    }
}

fn finish(doc: Document, empty: &Vec<usize>, fired: bool, total: usize, info: &StreamInfo) -> (r:
    Document)
    ensures
        r@ == finish_pdf(PagesV { doc: doc@, empty: empty@, fired }, total as nat, info@),
{
    let mut doc = doc;
    warn_empty_pages(&mut doc, empty, total);
    if fired {
        doc.warn(
            Warning::new(
                WarningKind::HeuristicApplied,
                "headings were inferred from line shape, not from font metrics; PDF extraction here is text-only (no columns, no table reconstruction)",
            ),
        );
    }
    if doc.blocks.len() == 0 && empty.len() == total {
        doc.warn(Warning::new(WarningKind::Degraded, "no text at all was extracted"));
    }
    if doc.title.is_none() {
        if let Some(f) = &info.filename {
            doc = doc.with_title(f);
        }
    }
    doc
}

/// What an error of the text extraction means.
pub fn map_extraction_error(message: String) -> (r: ConvertError)
    ensures
        r@ == extraction_error(message@),
{
    let lower = text::lower(&message);
    if text::contains(&lower, "encrypt") {
        ConvertError::Encrypted { format: "pdf" }
    } else {
        ConvertError::Malformed { format: "pdf", message }
    }
}

/// Takes a file's information; refuses what is damaged or encrypted.
pub fn open_pdf(file: Extracted<PdfFile>) -> (r: Result<Document, ConvertError>)
    ensures
        registry::outcome(r) == open_result(file_view(file)),
{
    match file {
        Extracted::Panicked => Err(ConvertError::ConverterPanic { format: "pdf" }),
        Extracted::Failed(m) => Err(ConvertError::Malformed { format: "pdf", message: m }),
        Extracted::Ready(f) => if f.encrypted {
            Err(ConvertError::Encrypted { format: "pdf" })
        } else {
            Ok(read_info(&f.info))
        },
    }
}

/// Adds the pages' text to what [`open_pdf`] gave.
pub fn convert_pages(
    doc: Document,
    pages: Extracted<Vec<String>>,
    info: &StreamInfo,
    cx: &mut ConvertCx<'_>,
) -> (r: Result<Document, ConvertError>)
    ensures
        *final(final(cx).budget) == *final(old(cx).budget),
        final(cx).start() == old(cx).start(),
        old(cx)@.grows_to(final(cx)@),
        pages_convert(
            doc@,
            pages_view(pages),
            info@,
            old(cx)@,
            final(cx)@,
            registry::outcome(r),
        ),
{
    let mut out = doc;
    let ghost d0 = out@;
    let ps = match pages {
        Extracted::Ready(ps) => ps,
        Extracted::Failed(m) => {
            return Err(map_extraction_error(m));
        },
        Extracted::Panicked => {
            return Err(ConvertError::ConverterPanic { format: "pdf" });
        },
    };
    if ps.len() == 0 {
        out.warn(Warning::new(WarningKind::NoTextLayer, "the PDF has no pages"));
        return Ok(out);
    }
    let ghost v = chars::texts(ps@);
    let mut empty: Vec<usize> = Vec::new();
    let mut fired = false;
    let ghost all = pages_from(v, 0, PagesV { doc: d0, empty: seq![], fired: false }, cx@);
    assert(empty@ =~= seq![]);
    let mut i: usize = 0;
    while i < ps.len()
        invariant
            i <= ps@.len(),
            0 < ps@.len() == ps.len(),
            v == chars::texts(ps@),
            d0 == doc@,
            pages_view(pages) == ExtractedV::Ready(v),
            *final(cx.budget) == *final(old(cx).budget),
            cx.start() == old(cx).start(),
            old(cx)@.grows_to(cx@),
            all == pages_from(
                v,
                0,
                PagesV { doc: d0, empty: seq![], fired: false },
                old(cx)@,
            ),
            all == pages_from(v, i as int, PagesV { doc: out@, empty: empty@, fired }, cx@),
            forall|at: CxV| #[trigger]
                page_reached(v, i as int, cx@, at) ==> page_reached(v, 0, old(cx)@, at),
        decreases ps@.len() - i,
    {
        let ghost c = cx@;
        assert(v[i as int] == ps@[i as int]@);
        if let Err(e) = cx.budget().check_deadline() {
            assert(page_reached(v, i as int, c, c));
            return Err(e);
        }
        let n: usize = text::len(&ps[i]);
        if let Err(e) = cx.charge_expanded(n as u64) {
            return Err(e);
        }
        if text::is_blank(&ps[i]) {
            empty.push(i + 1);
        } else {
            let blocks = page_blocks(&ps[i], &mut fired);
            out.push_all(blocks);
        }
        assert forall|at: CxV| #[trigger] page_reached(v, i + 1, cx@, at) implies page_reached(
            v,
            0,
            old(cx)@,
            at,
        ) by {
            assert(page_reached(v, i as int, c, at));
        }
        i += 1;
    }
    Ok(finish(out, &empty, fired, ps.len(), info))
}

/// Converts a PDF file with what the host extracts of it.
pub(crate) fn convert_pdf<X: Extractor>(
    tools: &X,
    bytes: &[u8],
    info: &StreamInfo,
    cx: &mut ConvertCx<'_>,
) -> (r: Result<Document, ConvertError>)
    ensures
        *final(final(cx).budget) == *final(old(cx).budget),
        final(cx).start() == old(cx).start(),
        old(cx)@.grows_to(final(cx)@),
        pdf_converts(*tools, bytes@, info@, old(cx)@, final(cx)@, registry::outcome(r)),
{
    let file = tools.pdf_file(bytes);
    let doc = match open_pdf(file) {
        Ok(d) => d,
        Err(e) => {
            return Err(e);
        },
    };
    if let Err(e) = cx.budget().check_deadline() {
        return Err(e);
    }
    let pages = tools.pdf_pages(bytes);
    convert_pages(doc, pages, info, cx)
}

pub(crate) fn accepts_pdf(probe: &Probe<'_>, info: &StreamInfo) -> (r: bool)
    ensures
        r == pdf_takes(probe@, info@),
{
    detect::has_pdf_magic(probe) || ((info.is_ext("pdf") || info.is_mime("application/pdf"))
        && detect::holds_pdf_magic(probe))
}

impl<X: Extractor> Converter for PdfConverter<X> {
    open spec fn named(&self) -> Seq<char> {
        "pdf"@
    }

    open spec fn ranked(&self) -> i32 {
        0
    }

    open spec fn takes(&self, probe: ProbeV, info: StreamInfoV) -> bool {
        pdf_takes(probe, info)
    }

    open spec fn converts(
        &self,
        bytes: Seq<u8>,
        info: StreamInfoV,
        pre: CxV,
        post: CxV,
        r: Result<DocumentV, ErrorV>,
    ) -> bool {
        pdf_converts(self.0, bytes, info, pre, post, r)
    }

    fn name(&self) -> (r: &'static str) {
        "pdf"
    }

    fn priority(&self) -> (r: i32) {
        PRIORITY_SPECIFIC
    }

    fn accepts(&self, probe: &Probe<'_>, info: &StreamInfo) -> (r: bool) {
        accepts_pdf(probe, info)
    }

    fn convert(&self, bytes: &[u8], info: &StreamInfo, cx: &mut ConvertCx<'_>) -> (r: Result<
        Document,
        ConvertError,
    >) {
        convert_pdf(&self.0, bytes, info, cx)
    }
}

pub open spec fn no_heading(bs: Seq<BlockV>) -> bool {
    forall|i: int| 0 <= i < bs.len() ==> !(#[trigger] bs[i] is Heading)
}

proof fn lemma_flushed(s: PageV)
    requires
        s.fired || no_heading(s.blocks),
    ensures
        s.flushed().fired == s.fired,
        s.fired || no_heading(s.flushed().blocks),
{
}

proof fn lemma_page_run(ls: Seq<Seq<char>>, fired: bool)
    ensures
        fired ==> page_run(ls, fired).fired,
        page_run(ls, fired).fired || no_heading(page_run(ls, fired).blocks),
    decreases ls.len(),
{
    if ls.len() > 0 {
        lemma_page_run(ls.drop_last(), fired);
        lemma_flushed(page_run(ls.drop_last(), fired));
    }
}

proof fn lemma_pages_report(pages: Seq<Seq<char>>, i: int, s: PagesV, c: CxV)
    requires
        0 <= i,
        s.fired || no_heading(s.doc.blocks),
    ensures
        pages_from(pages, i, s, c).0 matches Ok(t) ==> {
            &&& t.fired || no_heading(t.doc.blocks)
            &&& t.doc.warnings == s.doc.warnings
            &&& s.empty.len() <= t.empty.len()
            &&& (exists|k: int| i <= k < pages.len() && chars::is_blank(#[trigger] pages[k])) ==>
                t.empty.len() > 0
        },
    decreases pages.len() - i,
{
    if i < pages.len() {
        let n = chars::byte_len(pages[i]) as u64;
        let after = c.with_budget(c.budget().expand(n));
        if chars::is_blank(pages[i]) {
            lemma_pages_report(
                pages,
                i + 1,
                PagesV { empty: s.empty.push((i + 1) as usize), ..s },
                after,
            );
        } else {
            let p = spec_page_blocks(pages[i], s.fired);
            let run = page_run(chars::lines(pages[i]), s.fired);
            lemma_page_run(chars::lines(pages[i]), s.fired);
            lemma_flushed(run);
            let next = PagesV { doc: s.doc.extended(p.blocks), fired: p.fired, ..s };
            lemma_pages_report(pages, i + 1, next, after);
        }
    }
}

/// A warning of the kind is among them.
pub open spec fn has_kind(ws: Seq<WarningV>, kind: WarningKind) -> bool {
    exists|i: int| 0 <= i < ws.len() && (#[trigger] ws[i]).kind == kind
}

proof fn lemma_result_reports(
    d: DocumentV,
    pages: ExtractedV<Seq<Seq<char>>>,
    info: StreamInfoV,
    pre: CxV,
)
    requires
        d.blocks.len() == 0,
    ensures
        pdf_result(d, pages, info, pre).0 matches Ok(doc) ==> {
            &&& no_heading(doc.blocks) || has_kind(doc.warnings, WarningKind::HeuristicApplied)
            &&& has_gap(pages) ==> has_kind(doc.warnings, WarningKind::NoTextLayer)
        },
{
    if let (ExtractedV::Ready(ps), Ok(doc)) = (pages, pdf_result(d, pages, info, pre).0) {
        let s = PagesV { doc: d, empty: seq![], fired: false };
        lemma_pages_report(ps, 0, s, pre);
        let n = d.warnings.len() as int;
        if ps.len() == 0 {
            assert(doc.warnings[n].kind == WarningKind::NoTextLayer);
        } else {
            let t = pages_from(ps, 0, s, pre).0->Ok_0;
            let a = with_empty_pages(t.doc, t.empty, ps.len());
            if t.empty.len() > 0 {
                assert(a.warnings[n].kind == WarningKind::NoTextLayer);
                assert(doc.warnings[n] == a.warnings[n]);
            }
            if t.fired {
                let b = with_guesses(a, t.fired);
                let m = a.warnings.len() as int;
                assert(b.warnings[m].kind == WarningKind::HeuristicApplied);
                assert(doc.warnings[m] == b.warnings[m]);
            }
        }
    }
}

/// There is no page, or one without text.
pub open spec fn has_gap(pages: ExtractedV<Seq<Seq<char>>>) -> bool {
    pages matches ExtractedV::Ready(ps) && (ps.len() == 0 || exists|k: int|
        0 <= k < ps.len() && chars::is_blank(#[trigger] ps[k]))
}

/// Pages without text are reported: whatever the host extracted, a document
/// with such a page, or with no page at all, says so.
pub proof fn missing_text_is_reported(
    file: ExtractedV<PdfFileV>,
    pages: ExtractedV<Seq<Seq<char>>>,
    info: StreamInfoV,
    pre: CxV,
)
    requires
        open_result(file) is Ok,
        has_gap(pages),
    ensures
        pdf_result(open_result(file)->Ok_0, pages, info, pre).0 matches Ok(doc) ==> has_kind(
            doc.warnings,
            WarningKind::NoTextLayer,
        ),
{
    lemma_result_reports(open_result(file)->Ok_0, pages, info, pre);
}

/// Guesses are reported: every heading of a PDF is guessed, and a document that
/// has one says so.
pub proof fn guessed_headings_are_reported<X: Extractor>(
    tools: X,
    bytes: Seq<u8>,
    info: StreamInfoV,
    pre: CxV,
    post: CxV,
    doc: DocumentV,
)
    requires
        pdf_converts(tools, bytes, info, pre, post, Ok::<DocumentV, ErrorV>(doc)),
    ensures
        no_heading(doc.blocks) || has_kind(doc.warnings, WarningKind::HeuristicApplied),
{
    let r = Ok::<DocumentV, ErrorV>(doc);
    let file = choose|file: ExtractedV<PdfFileV>| #[trigger]
        tools.may_load(bytes, file) && (match open_result(file) {
            Err(e) => post == pre && r == Err::<DocumentV, ErrorV>(e),
            Ok(d) => (registry::late(pre, r) && post == pre) || exists|
                pages: ExtractedV<Seq<Seq<char>>>,
            | #[trigger]
                tools.may_give_pages(bytes, pages) && pages_convert(d, pages, info, pre, post, r),
        });
    let d = open_result(file)->Ok_0;
    let pages = choose|pages: ExtractedV<Seq<Seq<char>>>| #[trigger]
        tools.may_give_pages(bytes, pages) && pages_convert(d, pages, info, pre, post, r);
    lemma_result_reports(d, pages, info, pre);
}

} // verus!

//! Outlook messages.

use cfb::CompoundFile;
use std::io::{Cursor, Read};
use std::path::{Component, PathBuf};
use vstd::prelude::*;
use crate::bytes;
use crate::chars;
use crate::converters;
use crate::converters::{decode_as, paragraphs, squeeze};
use crate::converters::ooxml;
use crate::converters::ooxml::remaining_limit;
use crate::converters::xml::find_pair;
use crate::cx;
use crate::cx::{ConvertCx, CxV};
use crate::detect;
use crate::error::{ConvertError, ErrorV, Warning, WarningKind, WarningV};
use crate::ir;
use crate::ir::{Block, BlockV, Document, DocumentV, Inline, Span, SpanV, Table, TableV};
use crate::registry;
use crate::registry::{Converter, PRIORITY_SPECIFIC};
use crate::stream_info::{Probe, ProbeV, StreamInfo, StreamInfoV};
use crate::text;

verus! {

/// `cfb::CompoundFile`, carried through as an opaque value; what it was opened
/// on is [`compound_bytes`].
#[verifier::external_type_specification]
#[verifier::external_body]
#[verifier::reject_recursive_types(F)]
pub struct ExCompoundFile<F>(CompoundFile<F>);

/// An open compound file.
pub type Compound = CompoundFile<Cursor<Vec<u8>>>;

/// The bytes that a compound file was opened on.
pub uninterp spec fn compound_bytes(c: Compound) -> Seq<u8>;

/// Why the bytes cannot be opened.
pub uninterp spec fn compound_fault(bytes: Seq<u8>) -> Option<Seq<char>>;

/// Every entry in the file's order: whether it is a stream, and the parts of its
/// path.
pub uninterp spec fn compound_entries(bytes: Seq<u8>) -> Seq<(bool, Seq<Seq<char>>)>;

/// What reading at most so many bytes of a stream gives: nothing where it
/// cannot be opened, else its bytes or a message.
pub uninterp spec fn compound_stream(bytes: Seq<u8>, path: Seq<Seq<char>>, limit: u64) -> Option<
    Result<Seq<u8>, Seq<char>>,
>;

pub open spec fn entries_view(s: Seq<(bool, Vec<String>)>) -> Seq<(bool, Seq<Seq<char>>)> {
    Seq::new(s.len(), |i: int| (s[i].0, chars::texts(s[i].1@)))
}

/// `CompoundFile::open`: whether the bytes open, and with which error they do
/// not, depends on the bytes alone.
#[verifier::external_body]
fn open_compound(bytes: &[u8]) -> (r: Result<Compound, String>)
    ensures
        r matches Ok(c) ==> compound_fault(bytes@) is None && compound_bytes(c) == bytes@,
        r matches Err(m) ==> compound_fault(bytes@) == Some(m@),
{
    CompoundFile::open(Cursor::new(bytes.to_vec())).map_err(|e| e.to_string())
}

/// `CompoundFile::walk`: every entry's kind and the parts of its path, as
/// `Path::components` takes it apart, in the file's order; a function of the
/// bytes. A name inside a compound file holds no separator and no drive letter,
/// so the parts are the same everywhere; the root is written as a slash.
#[verifier::external_body]
fn entries(c: &Compound) -> (r: Vec<(bool, Vec<String>)>)
    ensures
        entries_view(r@) == compound_entries(compound_bytes(*c)),
{
    let part = |p: Component<'_>| match p {
        Component::Prefix(q) => q.as_os_str().to_string_lossy().into_owned(),
        Component::RootDir => "/".to_owned(),
        Component::CurDir => ".".to_owned(),
        Component::ParentDir => "..".to_owned(),
        Component::Normal(q) => q.to_string_lossy().into_owned(),
    };
    c.walk().map(|e| (e.is_stream(), e.path().components().map(part).collect())).collect()
}

/// `CompoundFile::open_stream` on the path of those parts, read through
/// `Read::take` and `read_to_end`: what comes back depends on the bytes, the path
/// and the limit, and holds no
/// more than `limit` bytes.
#[verifier::external_body]
fn read_stream(c: &mut Compound, path: &Vec<String>, limit: u64) -> (r: Option<
    Result<Vec<u8>, String>,
>)
    ensures
        compound_bytes(*final(c)) == compound_bytes(*old(c)),
        crate::archive::read_view(r) == compound_stream(
            compound_bytes(*old(c)),
            chars::texts(path@),
            limit,
        ),
        r matches Some(Ok(v)) ==> v@.len() <= limit,
{
    let mut buf = Vec::new();
    c.open_stream(path.iter().collect::<PathBuf>()).ok().map(|s| match s.take(limit).read_to_end(&mut buf) {
        Ok(_) => Ok(buf),
        Err(e) => Err(e.to_string()),
    })
}

/// Outlook messages.
pub struct OutlookMsgConverter;

pub open spec fn msg_takes(probe: ProbeV, info: StreamInfoV) -> bool {
    probe.starts_with(detect::ole_magic()) && (info.is_ext("msg"@) || info.is_mime(
        "application/vnd.ms-outlook"@,
    ))
}

/// How a property's bytes are to be read.
#[derive(Debug, Clone, Copy, PartialEq, Eq)]
pub enum PropertyKind {
    Utf16,
    Ascii,
    Binary,
}

pub open spec fn kind_of(k: Seq<char>) -> Option<PropertyKind> {
    if k == "001F"@ {
        Some(PropertyKind::Utf16)
    } else if k == "001E"@ {
        Some(PropertyKind::Ascii)
    } else if k == "0102"@ {
        Some(PropertyKind::Binary)
    } else {
        None
    }
}

/// The property tag and kind in a stream's name.
pub open spec fn spec_parse_stream_name(name: Seq<char>) -> Option<(Seq<char>, PropertyKind)> {
    let prefix = "__substg1.0_"@;
    if chars::starts_with(name, prefix) {
        let hex = name.skip(prefix.len() as int);
        if hex.len() < 8 {
            None
        } else {
            match kind_of(chars::upper(hex.subrange(4, 8))) {
                Some(k) => Some((chars::upper(hex.take(4)), k)),
                None => None,
            }
        }
    } else {
        None
    }
}

/// The field that a property tag stands for.
pub open spec fn field_of(tag: Seq<char>) -> Option<Seq<char>> {
    if tag == "0037"@ {
        Some("subject"@)
    } else if tag == "1000"@ {
        Some("body"@)
    } else if tag == "1013"@ {
        Some("body_html"@)
    } else if tag == "1009"@ {
        Some("body_rtf"@)
    } else if tag == "0C1A"@ || tag == "0065"@ {
        Some("from"@)
    } else if tag == "0E04"@ {
        Some("to"@)
    } else if tag == "0E03"@ {
        Some("cc"@)
    } else if tag == "0E06"@ || tag == "3007"@ {
        Some("date"@)
    } else if tag == "3707"@ || tag == "3704"@ {
        Some("attachment"@)
    } else {
        None
    }
}

/// A property's bytes as text, without trailing zero characters.
pub open spec fn spec_decode_property(b: Seq<u8>, kind: PropertyKind) -> Seq<char> {
    chars::trim_end_char(
        match kind {
            PropertyKind::Utf16 => bytes::utf16_text(bytes::units_of(b, false)),
            PropertyKind::Ascii => match converters::decoded("windows-1252"@, b) {
                Some(t) => t,
                None => seq![],
            },
            PropertyKind::Binary => seq![],
        },
        '\0',
    )
}

/// The value of a [`Message`].
#[verifier::ext_equal]
pub struct MessageV {
    pub props: Seq<(Seq<char>, Seq<char>)>,
    pub attachments: Seq<Seq<char>>,
}

impl MessageV {
    pub open spec fn get(self, key: Seq<char>) -> Option<Seq<char>> {
        ir::lookup(self.props, key)
    }

    /// The message with one more property; blank ones count for nothing.
    pub open spec fn with(self, field: Seq<char>, value: Seq<char>) -> MessageV {
        if chars::is_blank(value) {
            self
        } else if field == "attachment"@ {
            MessageV {
                attachments: self.attachments.push(converters::spec_squeeze(value)),
                ..self
            }
        } else if self.get(field) is Some {
            self
        } else {
            MessageV { props: self.props.push((field, value)), ..self }
        }
    }
}

/// The field and kind of a stream that matters.
pub open spec fn wanted(entry: (bool, Seq<Seq<char>>)) -> Option<(Seq<char>, PropertyKind)> {
    if !entry.0 || entry.1.len() == 0 {
        None
    } else {
        match spec_parse_stream_name(entry.1.last()) {
            Some(p) => match field_of(p.0) {
                Some(f) => Some((f, p.1)),
                None => None,
            },
            None => None,
        }
    }
}

/// What reading one entry leaves: a message to go on with, or the end.
pub enum ReadingV {
    Go(MessageV, CxV),
    End(Result<MessageV, ErrorV>, CxV),
}

/// One entry read. Reading ends where nothing more may be decompressed.
pub open spec fn read_entry(
    bytes: Seq<u8>,
    e: (bool, Seq<Seq<char>>),
    m: MessageV,
    c: CxV,
) -> ReadingV {
    match wanted(e) {
        None => ReadingV::Go(m, c),
        Some(w) => match compound_stream(bytes, e.1, ooxml::read_limit(c)) {
            None => ReadingV::Go(m, c),
            Some(got) => if c.expanded >= c.limits.max_expanded_bytes {
                ReadingV::End(Ok(m), c)
            } else {
                match got {
                    Err(_) => ReadingV::Go(m, c),
                    Ok(data) => {
                        let n = data.len() as u64;
                        let after = c.with_budget(c.budget().expand(n));
                        if c.budget().expand_fails(n) {
                            ReadingV::End(
                                Err(
                                    cx::limit_error(
                                        "max_expanded_bytes"@,
                                        after.expanded,
                                        c.limits.max_expanded_bytes,
                                    ),
                                ),
                                after,
                            )
                        } else {
                            ReadingV::Go(m.with(w.0, spec_decode_property(data, w.1)), after)
                        }
                    },
                }
            },
        },
    }
}

/// The message with the properties of the entries from the `i`-th on.
pub open spec fn message_from(bytes: Seq<u8>, i: int, m: MessageV, c: CxV) -> (
    Result<MessageV, ErrorV>,
    CxV,
)
    decreases compound_entries(bytes).len() - i,
{
    let es = compound_entries(bytes);
    if i < 0 || i >= es.len() {
        (Ok(m), c)
    } else {
        match read_entry(bytes, es[i], m, c) {
            ReadingV::Go(n, after) => message_from(bytes, i + 1, n, after),
            ReadingV::End(r, after) => (r, after),
        }
    }
}

/// The clock is read before the stream at the `i`-th entry or at a later one,
/// with the context as `at` says.
pub open spec fn stream_reached(bytes: Seq<u8>, i: int, m: MessageV, c: CxV, at: CxV) -> bool
    decreases compound_entries(bytes).len() - i,
{
    let es = compound_entries(bytes);
    0 <= i < es.len() && (es[i].0 && at == c || (match read_entry(bytes, es[i], m, c) {
        ReadingV::Go(n, after) => stream_reached(bytes, i + 1, n, after, at),
        ReadingV::End(..) => false,
    }))
}

pub open spec fn squeezed(o: Option<Seq<char>>) -> Option<Seq<char>> {
    match o {
        Some(v) => Some(converters::spec_squeeze(v)),
        None => None,
    }
}

/// A header row, where the message has the field.
pub open spec fn header_row(m: MessageV, label: Seq<char>, key: Seq<char>) -> Seq<
    Seq<Seq<SpanV>>,
> {
    match m.get(key) {
        Some(v) => seq![
            seq![
                seq![SpanV::Text(label)],
                seq![SpanV::Text(converters::spec_squeeze(v))],
            ],
        ],
        None => seq![],
    }
}

pub open spec fn header_rows(m: MessageV) -> Seq<Seq<Seq<SpanV>>> {
    header_row(m, "From"@, "from"@) + header_row(m, "To"@, "to"@) + header_row(m, "Cc"@, "cc"@)
        + header_row(m, "Date"@, "date"@) + header_row(m, "Subject"@, "subject"@)
}

/// The document with the message's headers as a table.
pub open spec fn with_headers(d: DocumentV, m: MessageV) -> DocumentV {
    let rows = header_rows(m);
    if rows.len() == 0 {
        d
    } else {
        d.pushed(BlockV::Table(TableV { caption: None, header: None, rows }))
    }
}

/// The document with the attachments named.
pub open spec fn with_attachments(d: DocumentV, m: MessageV) -> DocumentV {
    if m.attachments.len() == 0 {
        d
    } else {
        d.pushed(
            BlockV::Paragraph(
                seq![
                    SpanV::Strong(seq![SpanV::Text("Attachments"@)]),
                    SpanV::Text(": "@ + chars::join(m.attachments, ", "@)),
                ],
            ),
        ).warned(
            WarningV {
                kind: WarningKind::SkippedMember,
                message: chars::decimal(m.attachments.len())
                    + " attachment(s) named but not converted"@,
            },
        )
    }
}

/// The document with the plain-text body, or a warning in its place.
pub open spec fn with_body(d: DocumentV, m: MessageV) -> DocumentV {
    match m.get("body"@) {
        Some(body) => d.pushed(BlockV::Rule).extended(converters::spec_paragraphs(body)),
        None => if m.get("body_html"@) is Some || m.get("body_rtf"@) is Some {
            d.warned(
                WarningV {
                    kind: WarningKind::Degraded,
                    message:
                        "the message has no plain-text body; the HTML/RTF alternative is not converted"@,
                },
            )
        } else {
            d.warned(
                WarningV {
                    kind: WarningKind::NoTextLayer,
                    message: "the message carried no body"@,
                },
            )
        },
    }
}

/// What a message becomes.
pub open spec fn message_document(m: MessageV) -> Result<DocumentV, ErrorV> {
    let titled = match m.get("subject"@) {
        Some(s) => ir::empty_document().titled(converters::spec_squeeze(s)),
        None => ir::empty_document(),
    };
    let meta = DocumentV {
        metadata: ir::MetadataV {
            author: squeezed(m.get("from"@)),
            created: squeezed(m.get("date"@)),
            ..ir::empty_metadata()
        },
        ..titled
    };
    let d = with_body(with_attachments(with_headers(meta, m), m), m);
    if d.blocks.len() == 0 {
        Err(
            ErrorV::Malformed {
                format: "msg"@,
                message: "no MAPI property streams — not an Outlook message"@,
            },
        )
    } else {
        Ok(d)
    }
}

pub open spec fn no_message() -> MessageV {
    MessageV { props: seq![], attachments: seq![] }
}

/// What a message file becomes, and the budget after it.
pub open spec fn msg_result(bytes: Seq<u8>, pre: CxV) -> (Result<DocumentV, ErrorV>, CxV) {
    match compound_fault(bytes) {
        Some(m) => (Err(ErrorV::Malformed { format: "msg"@, message: m }), pre),
        None => {
            let read = message_from(bytes, 0, no_message(), pre);
            match read.0 {
                Err(e) => (Err(e), read.1),
                Ok(m) => (message_document(m), read.1),
            }
        },
    }
}

/// The property tag and kind in a stream's name.
pub fn parse_stream_name(name: &str) -> (r: Option<(String, PropertyKind)>)
    ensures
        r is Some == spec_parse_stream_name(name@) is Some,
        r matches Some(p) ==> spec_parse_stream_name(name@) == Some((p.0@, p.1)),
{
    match text::strip_prefix(name, "__substg1.0_") {
        Some(hex) => {
            let v = text::to_chars(&hex);
            if v.len() < 8 {
                return None;
            }
            let raw_tag = text::slice(&v, 0, 4);
            let raw_kind = text::slice(&v, 4, 8);
            assert(raw_tag@ =~= hex@.take(4));
            let k = text::upper(&raw_kind);
            let tag = text::upper(&raw_tag);
            if text::eq(&k, "001F") {
                Some((tag, PropertyKind::Utf16))
            } else if text::eq(&k, "001E") {
                Some((tag, PropertyKind::Ascii))
            } else if text::eq(&k, "0102") {
                Some((tag, PropertyKind::Binary))
            } else {
                None
            }
        },
        None => None,
    }
}

fn field_for(tag: &str) -> (r: Option<&'static str>)
    ensures
        r is Some == field_of(tag@) is Some,
        r matches Some(f) ==> field_of(tag@) == Some(f@),
{
    if text::eq(tag, "0037") {
        Some("subject")
    } else if text::eq(tag, "1000") {
        Some("body")
    } else if text::eq(tag, "1013") {
        Some("body_html")
    } else if text::eq(tag, "1009") {
        Some("body_rtf")
    } else if text::eq(tag, "0C1A") || text::eq(tag, "0065") {
        Some("from")
    } else if text::eq(tag, "0E04") {
        Some("to")
    } else if text::eq(tag, "0E03") {
        Some("cc")
    } else if text::eq(tag, "0E06") || text::eq(tag, "3007") {
        Some("date")
    } else if text::eq(tag, "3707") || text::eq(tag, "3704") {
        Some("attachment")
    } else {
        None
    }
}

/// A property's bytes as text, without trailing zero characters.
pub fn decode_property(b: &[u8], kind: PropertyKind) -> (r: String)
    ensures
        r@ == spec_decode_property(b@, kind),
{
    let t = match kind {
        PropertyKind::Utf16 => bytes::decode_utf16(b, false),
        PropertyKind::Ascii => match decode_as("windows-1252", b) {
            Some(t) => t,
            None => String::new(),
        },
        PropertyKind::Binary => String::new(),
    };
    text::trim_end_char(&t, '\0')
}

/// What has been read of a message.
pub struct Message {
    /// Field and text, the first text of each field.
    pub props: Vec<(String, String)>,
    pub attachments: Vec<String>,
}

impl View for Message {
    type V = MessageV;

    open spec fn view(&self) -> MessageV {
        MessageV { props: ir::pairs_view(self.props@), attachments: chars::texts(self.attachments@) }
    }
}

impl Message {
    /// The text of a field.
    pub fn get(&self, key: &str) -> (r: Option<String>)
        ensures
            chars::opt(r) == self@.get(key@),
    {
        find_pair(&self.props, key)
    }

    /// Takes in one property.
    pub fn record(&mut self, field: &str, value: String)
        ensures
            final(self)@ == old(self)@.with(field@, value@),
    {
        if text::is_blank(&value) {
            return ;
        }
        if text::eq(field, "attachment") {
            let s = squeeze(&value);
            proof {
                chars::lemma_texts_push(self.attachments@, s);
            }
            self.attachments.push(s);
        } else if self.get(field).is_none() {
            let ghost before = self.props@;
            let pair = (field.to_owned(), value);
            self.props.push(pair);
            assert(ir::pairs_view(self.props@) =~= ir::pairs_view(before).push(
                (pair.0@, pair.1@),
            ));
        }
    }
}

/// The field and kind of a stream that matters.
pub fn wanted_entry(e: &(bool, Vec<String>)) -> (r: Option<(&'static str, PropertyKind)>)
    ensures
        r is Some == wanted((e.0, chars::texts(e.1@))) is Some,
        r matches Some(w) ==> wanted((e.0, chars::texts(e.1@))) == Some((w.0@, w.1)),
{
    if !e.0 || e.1.len() == 0 {
        return None;
    }
    let name = &e.1[e.1.len() - 1];
    match parse_stream_name(name) {
        Some(p) => match field_for(&p.0) {
            Some(f) => Some((f, p.1)),
            None => None,
        },
        None => None,
    }
}

spec fn read_outcome(r: Result<Message, ConvertError>) -> Result<MessageV, ErrorV> {
    match r {
        Ok(m) => Ok(m@),
        Err(e) => Err(e@),
    }
}

spec fn late_read(c: CxV, r: Result<Message, ConvertError>) -> bool {
    r matches Err(e) && cx::timed_out(e@, c.limits)
}

fn read_message(comp: &mut Compound, cx: &mut ConvertCx<'_>) -> (r: Result<Message, ConvertError>)
    ensures
        *final(final(cx).budget) == *final(old(cx).budget),
        final(cx).start() == old(cx).start(),
        old(cx)@.grows_to(final(cx)@),
        (read_outcome(r), final(cx)@) == message_from(
            compound_bytes(*old(comp)),
            0,
            no_message(),
            old(cx)@,
        ) || late_read(old(cx)@, r) && stream_reached(
            compound_bytes(*old(comp)),
            0,
            no_message(),
            old(cx)@,
            final(cx)@,
        ),
{
    let ghost bytes = compound_bytes(*comp);
    let es = entries(comp);
    let ghost v = entries_view(es@);
    let mut m = Message { props: Vec::new(), attachments: Vec::new() };
    assert(m@ =~= no_message());
    let ghost all = message_from(bytes, 0, no_message(), cx@);
    let mut i: usize = 0;
    while i < es.len()
        invariant
            i <= es@.len(),
            v == entries_view(es@),
            v == compound_entries(bytes),
            bytes == compound_bytes(*comp),
            bytes == compound_bytes(*old(comp)),
            *final(cx.budget) == *final(old(cx).budget),
            cx.start() == old(cx).start(),
            old(cx)@.grows_to(cx@),
            all == message_from(bytes, 0, no_message(), old(cx)@),
            all == message_from(bytes, i as int, m@, cx@),
            forall|at: CxV| #[trigger]
                stream_reached(bytes, i as int, m@, cx@, at) ==> stream_reached(
                    bytes,
                    0,
                    no_message(),
                    old(cx)@,
                    at,
                ),
        decreases es@.len() - i,
    {
        let ghost m0 = m@;
        let ghost c0 = cx@;
        assert(v[i as int] == (es@[i as int].0, chars::texts(es@[i as int].1@)));
        if es[i].0 {
            if let Err(e) = cx.budget().check_deadline() {
                assert(stream_reached(bytes, i as int, m0, c0, c0));
                return Err(e);
            }
        }
        if let Some(w) = wanted_entry(&es[i]) {
            let limit: u64 = remaining_limit(cx);
            if let Some(got) = read_stream(comp, &es[i].1, limit) {
                if cx.budget().expanded_bytes() >= cx.limits().max_expanded_bytes {
                    return Ok(m);
                }
                if let Ok(data) = got {
                    if let Err(e) = cx.charge_expanded(data.len() as u64) {
                        return Err(e);
                    }
                    let value = decode_property(data.as_slice(), w.1);
                    m.record(w.0, value);
                }
            }
        }
        assert forall|at: CxV| #[trigger]
            stream_reached(bytes, i + 1, m@, cx@, at) implies stream_reached(
            bytes,
            0,
            no_message(),
            old(cx)@,
            at,
        ) by {
            assert(stream_reached(bytes, i as int, m0, c0, at));
        }
        i += 1;
    }
    Ok(m)
}

fn push_header(rows: &mut Vec<Vec<Inline>>, m: &Message, label: &str, key: &str)
    ensures
        ir::rows_view(final(rows)@) == ir::rows_view(old(rows)@) + header_row(m@, label@, key@),
{
    let ghost before = rows@;
    match m.get(key) {
        Some(v) => {
            let s = squeeze(&v);
            let mut row: Vec<Inline> = Vec::new();
            row.push(Inline::text(label));
            row.push(Inline::text(s));
            assert(ir::cells_view(row@) =~= seq![
                seq![SpanV::Text(label@)],
                seq![SpanV::Text(s@)],
            ]);
            rows.push(row);
            assert(ir::rows_view(rows@) =~= ir::rows_view(before) + seq![ir::cells_view(row@)]);
        },
        None => {
            assert(ir::rows_view(rows@) =~= ir::rows_view(before) + seq![]);
        },
    }
}

fn squeeze_opt(o: Option<String>) -> (r: Option<String>)
    ensures
        chars::opt(r) == squeezed(chars::opt(o)),
{
    match o {
        Some(s) => Some(squeeze(&s)),
        None => None,
    }
}

fn push_attachments(doc: &mut Document, m: &Message)
    ensures
        final(doc)@ == with_attachments(old(doc)@, m@),
{
    if m.attachments.len() > 0 {
        let list = text::join(&m.attachments, ", ");
        let t = text::cat(": ", &list);
        let mut i = Inline::of(Span::Strong(Inline::text("Attachments")));
        i.push(Span::Text(t));
        assert(i@ =~= seq![
            SpanV::Strong(seq![SpanV::Text("Attachments"@)]),
            SpanV::Text(t@),
        ]);
        doc.push(Block::Paragraph(i));
        let n = text::decimal(m.attachments.len() as u64);
        let w = text::cat(&n, " attachment(s) named but not converted");
        doc.warn(Warning::new(WarningKind::SkippedMember, w));
    }
}

fn push_body(doc: &mut Document, m: &Message)
    ensures
        final(doc)@ == with_body(old(doc)@, m@),
{
    match m.get("body") {
        Some(body) => {
            doc.push(Block::Rule);
            doc.push_all(paragraphs(&body));
        },
        None => {
            if m.get("body_html").is_some() || m.get("body_rtf").is_some() {
                doc.warn(
                    Warning::new(
                        WarningKind::Degraded,
                        "the message has no plain-text body; the HTML/RTF alternative is not converted",
                    ),
                );
            } else {
                doc.warn(Warning::new(WarningKind::NoTextLayer, "the message carried no body"));
            }
        },
    }
}

/// The document of a message.
pub fn assemble(m: &Message) -> (r: Result<Document, ConvertError>)
    ensures
        registry::outcome(r) == message_document(m@),
{
    let mut doc = Document::new();
    if let Some(s) = m.get("subject") {
        doc = doc.with_title(squeeze(&s));
    }
    doc.metadata.author = squeeze_opt(m.get("from"));
    doc.metadata.created = squeeze_opt(m.get("date"));
    let mut rows: Vec<Vec<Inline>> = Vec::new();
    assert(ir::rows_view(rows@) =~= seq![]);
    push_header(&mut rows, m, "From", "from");
    assert(ir::rows_view(rows@) =~= header_row(m@, "From"@, "from"@));
    push_header(&mut rows, m, "To", "to");
    push_header(&mut rows, m, "Cc", "cc");
    push_header(&mut rows, m, "Date", "date");
    push_header(&mut rows, m, "Subject", "subject");
    if rows.len() > 0 {
        doc.push(Block::Table(Table { caption: None, header: None, rows }));
    }
    push_attachments(&mut doc, m);
    push_body(&mut doc, m);
    if doc.blocks.len() == 0 {
        return Err(
            ConvertError::Malformed {
                format: "msg",
                message: "no MAPI property streams — not an Outlook message".to_owned(),
            },
        );
    }
    Ok(doc)
}

impl Converter for OutlookMsgConverter {
    open spec fn named(&self) -> Seq<char> {
        "msg"@
    }

    open spec fn ranked(&self) -> i32 {
        0
    }

    open spec fn takes(&self, probe: ProbeV, info: StreamInfoV) -> bool {
        msg_takes(probe, info)
    }

    open spec fn converts(
        &self,
        bytes: Seq<u8>,
        info: StreamInfoV,
        pre: CxV,
        post: CxV,
        r: Result<DocumentV, ErrorV>,
    ) -> bool {
        (r, post) == msg_result(bytes, pre) || registry::late(pre, r) && compound_fault(bytes) is None
            && stream_reached(bytes, 0, no_message(), pre, post)
    }

    fn name(&self) -> (r: &'static str) {
        "msg"
    }

    fn priority(&self) -> (r: i32) {
        PRIORITY_SPECIFIC
    }

    fn accepts(&self, probe: &Probe<'_>, info: &StreamInfo) -> (r: bool) {
        detect::has_ole_magic(probe) && (info.is_ext("msg") || info.is_mime(
            "application/vnd.ms-outlook",
        ))
    }

    fn convert(&self, bytes: &[u8], info: &StreamInfo, cx: &mut ConvertCx<'_>) -> (r: Result<
        Document,
        ConvertError,
    >) {
        let mut comp = match open_compound(bytes) {
            Ok(c) => c,
            Err(m) => {
                return Err(ConvertError::Malformed { format: "msg", message: m });
            },
        };
        match read_message(&mut comp, cx) {
            Ok(m) => assemble(&m),
            Err(e) => Err(e),
        }
    }
}

/// What a message holds and the document does not is reported: attachments, a
/// body in a form that is not converted, and a body that is not there.
pub proof fn unconverted_parts_are_reported(m: MessageV)
    ensures
        message_document(m) matches Ok(d) ==> {
            &&& m.attachments.len() > 0 ==> d.warnings[0].kind == WarningKind::SkippedMember
                && d.warnings.len() > 0
            &&& m.get("body"@) is None ==> d.warnings.len() > 0 && d.warnings.last().kind == (
            if m.get("body_html"@) is Some || m.get("body_rtf"@) is Some {
                WarningKind::Degraded
            } else {
                WarningKind::NoTextLayer
            })
        },
{
}

} // verus!

//! The converters that come with the library, and what they do to the members
//! of a container.

use vstd::prelude::*;
use crate::converters;
use crate::converters::csv::CsvConverter;
use crate::converters::epub::EpubConverter;
use crate::converters::extract::Extractor;
use crate::converters::html;
use crate::converters::html::{accepts_html, convert_html};
use crate::converters::json::{IpynbConverter, JsonConverter};
use crate::converters::media;
use crate::converters::media::{ImageConverter, accepts_audio, convert_audio};
use crate::converters::msg::OutlookMsgConverter;
use crate::converters::ooxml::{DocxConverter, PptxConverter};
use crate::converters::pdf;
use crate::converters::pdf::{accepts_pdf, convert_pdf};
use crate::converters::sheet;
use crate::converters::sheet::{accepts_spreadsheet, convert_spreadsheet};
use crate::converters::text::TextConverter;
use crate::converters::xml::{FeedConverter, XmlConverter};
use crate::converters::zip::{accepts_zip, convert_zip};
use crate::cx::{ConvertCx, CxV};
use crate::detect;
use crate::error::{ConvertError, ErrorV, Warning, WarningKind};
use crate::ir::{Document, DocumentV};
use crate::registry;
use crate::registry::{Converter, ConverterRegistry, Entry, PRIORITY_GENERIC, PRIORITY_SPECIFIC};
use crate::stream_info;
use crate::stream_info::{Probe, ProbeV, StreamInfo, StreamInfoV};
use crate::text;

verus! {

/// The formats that the library knows.
#[derive(Debug, Clone, Copy, PartialEq, Eq)]
pub enum Kind {
    Text,
    Zip,
    Html,
    Csv,
    Json,
    Ipynb,
    Xml,
    Feed,
    Docx,
    Pptx,
    Spreadsheet,
    Epub,
    Pdf,
    Image,
    Audio,
    Msg,
}

pub open spec fn kind_named(k: Kind) -> Seq<char> {
    match k {
        Kind::Text => TextConverter.named(),
        Kind::Zip => "zip"@,
        Kind::Html => "html"@,
        Kind::Csv => CsvConverter.named(),
        Kind::Json => JsonConverter.named(),
        Kind::Ipynb => IpynbConverter.named(),
        Kind::Xml => XmlConverter.named(),
        Kind::Feed => FeedConverter.named(),
        Kind::Docx => DocxConverter.named(),
        Kind::Pptx => PptxConverter.named(),
        Kind::Spreadsheet => "spreadsheet"@,
        Kind::Epub => EpubConverter.named(),
        Kind::Pdf => "pdf"@,
        Kind::Image => ImageConverter.named(),
        Kind::Audio => "audio"@,
        Kind::Msg => OutlookMsgConverter.named(),
    }
}

pub open spec fn kind_ranked(k: Kind) -> i32 {
    match k {
        Kind::Text => 150,
        Kind::Zip => 110,
        Kind::Html => 100,
        Kind::Xml => 10,
        Kind::Ipynb => (0 - 1) as i32,
        _ => 0,
    }
}

pub open spec fn kind_takes(k: Kind, probe: ProbeV, info: StreamInfoV) -> bool {
    match k {
        Kind::Text => TextConverter.takes(probe, info),
        Kind::Zip => converters::zip::zip_takes(probe, info),
        Kind::Html => html::html_takes(probe, info),
        Kind::Csv => CsvConverter.takes(probe, info),
        Kind::Json => JsonConverter.takes(probe, info),
        Kind::Ipynb => IpynbConverter.takes(probe, info),
        Kind::Xml => XmlConverter.takes(probe, info),
        Kind::Feed => FeedConverter.takes(probe, info),
        Kind::Docx => DocxConverter.takes(probe, info),
        Kind::Pptx => PptxConverter.takes(probe, info),
        Kind::Spreadsheet => sheet::spreadsheet_takes(probe, info),
        Kind::Epub => EpubConverter.takes(probe, info),
        Kind::Pdf => pdf::pdf_takes(probe, info),
        Kind::Image => ImageConverter.takes(probe, info),
        Kind::Audio => media::audio_takes(probe, info),
        Kind::Msg => OutlookMsgConverter.takes(probe, info),
    }
}

/// What a conversion by one of the formats may give.
pub open spec fn kind_converts<X: Extractor>(
    tools: X,
    k: Kind,
    bytes: Seq<u8>,
    info: StreamInfoV,
    pre: CxV,
    post: CxV,
    r: Result<DocumentV, ErrorV>,
) -> bool
    decreases converters::zip::depth_left(pre), 2int, 0int, 0int,
{
    match k {
        Kind::Text => TextConverter.converts(bytes, info, pre, post, r),
        Kind::Zip => converters::zip::zip_converts(tools, bytes, pre, post, r),
        Kind::Html => html::html_converts(tools, bytes, info, pre, post, r),
        Kind::Csv => CsvConverter.converts(bytes, info, pre, post, r),
        Kind::Json => JsonConverter.converts(bytes, info, pre, post, r),
        Kind::Ipynb => IpynbConverter.converts(bytes, info, pre, post, r),
        Kind::Xml => XmlConverter.converts(bytes, info, pre, post, r),
        Kind::Feed => FeedConverter.converts(bytes, info, pre, post, r),
        Kind::Docx => DocxConverter.converts(bytes, info, pre, post, r),
        Kind::Pptx => PptxConverter.converts(bytes, info, pre, post, r),
        Kind::Spreadsheet => sheet::spreadsheet_converts(tools, bytes, info, pre, post, r),
        Kind::Epub => EpubConverter.converts(bytes, info, pre, post, r),
        Kind::Pdf => pdf::pdf_converts(tools, bytes, info, pre, post, r),
        Kind::Image => ImageConverter.converts(bytes, info, pre, post, r),
        Kind::Audio => media::audio_converts(tools, bytes, info, pre, post, r),
        Kind::Msg => OutlookMsgConverter.converts(bytes, info, pre, post, r),
    }
}

/// The formats in the order in which they are tried: by priority, the later
/// registration first.
pub open spec fn order() -> Seq<Kind> {
    seq![
        Kind::Ipynb,
        Kind::Msg,
        Kind::Audio,
        Kind::Image,
        Kind::Pdf,
        Kind::Epub,
        Kind::Spreadsheet,
        Kind::Pptx,
        Kind::Docx,
        Kind::Feed,
        Kind::Json,
        Kind::Csv,
        Kind::Xml,
        Kind::Html,
        Kind::Zip,
        Kind::Text,
    ]
}

/// What may come of trying the formats on the guesses from the `g`-th on, in
/// the first of them the formats from the `k`-th on. A limit ends the attempts,
/// any other error is remembered.
pub open spec fn tries_from<X: Extractor>(
    tools: X,
    bytes: Seq<u8>,
    guesses: Seq<StreamInfoV>,
    mismatch: Option<Seq<char>>,
    g: int,
    k: int,
    last: Option<ErrorV>,
    c: CxV,
    post: CxV,
    r: Result<DocumentV, ErrorV>,
) -> bool
    decreases converters::zip::depth_left(c), 3int, guesses.len() - g, order().len() - k,
{
    if g < 0 || k < 0 || g >= guesses.len() {
        post == c && r == Err::<DocumentV, ErrorV>(registry::no_result(guesses, last))
    } else if k >= order().len() {
        tries_from(tools, bytes, guesses, mismatch, g + 1, 0, last, c, post, r)
    } else if !kind_takes(order()[k], stream_info::spec_probe(bytes), guesses[g]) {
        tries_from(tools, bytes, guesses, mismatch, g, k + 1, last, c, post, r)
    } else {
        (registry::late(c, r) && post == c) || exists|
            x: u64,
            e: u64,
            out: Result<DocumentV, ErrorV>,
        |
            #[trigger] converters::zip::ended(x, e, out) && c.expanded <= x && c.embedded <= e
                && kind_converts(
                tools,
                order()[k],
                bytes,
                guesses[g],
                c,
                converters::zip::counted(c, x, e),
                out,
            ) && (match out {
                Ok(d) => post == converters::zip::counted(c, x, e) && r == Ok::<DocumentV, ErrorV>(
                    registry::noted(d, mismatch),
                ),
                Err(f) => if registry::is_limit(out) {
                    post == converters::zip::counted(c, x, e) && r == out
                } else {
                    tries_from(
                        tools,
                        bytes,
                        guesses,
                        mismatch,
                        g,
                        k + 1,
                        Some(f),
                        converters::zip::counted(c, x, e),
                        post,
                        r,
                    )
                },
            })
    }
}

/// What the conversion of a container's member may give.
pub open spec fn member_converts<X: Extractor>(
    tools: X,
    bytes: Seq<u8>,
    info: StreamInfoV,
    pre: CxV,
    post: CxV,
    r: Result<DocumentV, ErrorV>,
) -> bool
    decreases converters::zip::depth_left(pre), 4int, 0int, 0int,
{
    let d = detect::spec_detect(bytes, info);
    tries_from(tools, bytes, d.guesses, d.mismatch, 0, 0, None, pre, post, r)
}

fn kinds() -> (r: Vec<Kind>)
    ensures
        r@ == order(),
{
    let mut v: Vec<Kind> = Vec::new();
    v.push(Kind::Ipynb);
    v.push(Kind::Msg);
    v.push(Kind::Audio);
    v.push(Kind::Image);
    v.push(Kind::Pdf);
    v.push(Kind::Epub);
    v.push(Kind::Spreadsheet);
    v.push(Kind::Pptx);
    v.push(Kind::Docx);
    v.push(Kind::Feed);
    v.push(Kind::Json);
    v.push(Kind::Csv);
    v.push(Kind::Xml);
    v.push(Kind::Html);
    v.push(Kind::Zip);
    v.push(Kind::Text);
    assert(v@ =~= order());
    v
}

fn accepts_kind(k: Kind, probe: &Probe<'_>, info: &StreamInfo) -> (r: bool)
    ensures
        r == kind_takes(k, probe@, info@),
{
    match k {
        Kind::Text => TextConverter.accepts(probe, info),
        Kind::Zip => accepts_zip(probe, info),
        Kind::Html => accepts_html(probe, info),
        Kind::Csv => CsvConverter.accepts(probe, info),
        Kind::Json => JsonConverter.accepts(probe, info),
        Kind::Ipynb => IpynbConverter.accepts(probe, info),
        Kind::Xml => XmlConverter.accepts(probe, info),
        Kind::Feed => FeedConverter.accepts(probe, info),
        Kind::Docx => DocxConverter.accepts(probe, info),
        Kind::Pptx => PptxConverter.accepts(probe, info),
        Kind::Spreadsheet => accepts_spreadsheet(probe, info),
        Kind::Epub => EpubConverter.accepts(probe, info),
        Kind::Pdf => accepts_pdf(probe, info),
        Kind::Image => ImageConverter.accepts(probe, info),
        Kind::Audio => accepts_audio(probe, info),
        Kind::Msg => OutlookMsgConverter.accepts(probe, info),
    }
}

fn convert_kind<X: Extractor>(
    k: Kind,
    tools: &X,
    bytes: &[u8],
    info: &StreamInfo,
    cx: &mut ConvertCx<'_>,
) -> (r: Result<Document, ConvertError>)
    ensures
        *final(final(cx).budget) == *final(old(cx).budget),
        final(cx).start() == old(cx).start(),
        old(cx)@.grows_to(final(cx)@),
        kind_converts(*tools, k, bytes@, info@, old(cx)@, final(cx)@, registry::outcome(r)),
    decreases converters::zip::depth_left(old(cx)@), 3int,
{
    match k {
        Kind::Text => TextConverter.convert(bytes, info, cx),
        Kind::Zip => convert_zip(tools, bytes, cx),
        Kind::Html => convert_html(tools, bytes, info, cx),
        Kind::Csv => CsvConverter.convert(bytes, info, cx),
        Kind::Json => JsonConverter.convert(bytes, info, cx),
        Kind::Ipynb => IpynbConverter.convert(bytes, info, cx),
        Kind::Xml => XmlConverter.convert(bytes, info, cx),
        Kind::Feed => FeedConverter.convert(bytes, info, cx),
        Kind::Docx => DocxConverter.convert(bytes, info, cx),
        Kind::Pptx => PptxConverter.convert(bytes, info, cx),
        Kind::Spreadsheet => convert_spreadsheet(tools, bytes, info, cx),
        Kind::Epub => EpubConverter.convert(bytes, info, cx),
        Kind::Pdf => convert_pdf(tools, bytes, info, cx),
        Kind::Image => ImageConverter.convert(bytes, info, cx),
        Kind::Audio => convert_audio(tools, bytes, info, cx),
        Kind::Msg => OutlookMsgConverter.convert(bytes, info, cx),
    }
}

/// Converts a container's member: detects what it is and tries the formats.
pub(crate) fn convert_member<X: Extractor>(
    tools: &X,
    bytes: &[u8],
    info: &StreamInfo,
    cx: &mut ConvertCx<'_>,
) -> (r: Result<Document, ConvertError>)
    ensures
        *final(final(cx).budget) == *final(old(cx).budget),
        final(cx).start() == old(cx).start(),
        old(cx)@.grows_to(final(cx)@),
        member_converts(*tools, bytes@, info@, old(cx)@, final(cx)@, registry::outcome(r)),
    decreases converters::zip::depth_left(old(cx)@), 5int,
{
    let det = detect(bytes, info);
    let probe = Probe::new(bytes);
    let ks = kinds();
    let ghost pre = cx@;
    let ghost dv = det@;
    let mut last: Option<ConvertError> = None;
    let mut g: usize = 0;
    while g < det.guesses.len()
        invariant
            g <= det.guesses@.len(),
            dv == det@,
            dv == detect::spec_detect(bytes@, info@),
            probe@ == stream_info::spec_probe(bytes@),
            ks@ == order(),
            pre == old(cx)@,
            *final(cx.budget) == *final(old(cx).budget),
            cx.start() == old(cx).start(),
            pre.grows_to(cx@),
            forall|p: CxV, q: Result<DocumentV, ErrorV>| #[trigger]
                tries_from(
                    *tools,
                    bytes@,
                    dv.guesses,
                    dv.mismatch,
                    g as int,
                    0,
                    registry::error_view(last),
                    cx@,
                    p,
                    q,
                ) ==> member_converts(*tools, bytes@, info@, pre, p, q),
        decreases det.guesses@.len() - g,
    {
        let guess = &det.guesses[g];
        assert(dv.guesses[g as int] == guess@);
        let mut k: usize = 0;
        while k < ks.len()
            invariant
                g < det.guesses@.len(),
                k <= ks@.len(),
                dv == det@,
                dv.guesses[g as int] == guess@,
                dv.guesses.len() == det.guesses@.len(),
                probe@ == stream_info::spec_probe(bytes@),
                ks@ == order(),
                pre == old(cx)@,
                *final(cx.budget) == *final(old(cx).budget),
                cx.start() == old(cx).start(),
                pre.grows_to(cx@),
                forall|p: CxV, q: Result<DocumentV, ErrorV>| #[trigger]
                    tries_from(
                        *tools,
                        bytes@,
                        dv.guesses,
                        dv.mismatch,
                        g as int,
                        k as int,
                        registry::error_view(last),
                        cx@,
                        p,
                        q,
                    ) ==> member_converts(*tools, bytes@, info@, pre, p, q),
            decreases ks@.len() - k,
        {
            let ghost c = cx@;
            let ghost l = registry::error_view(last);
            if accepts_kind(ks[k], &probe, guess) {
                if let Err(e) = cx.budget().check_deadline() {
                    assert(tries_from(
                        *tools,
                        bytes@,
                        dv.guesses,
                        dv.mismatch,
                        g as int,
                        k as int,
                        l,
                        cx@,
                        cx@,
                        Err::<DocumentV, ErrorV>(e@),
                    ));
                    return Err(e);
                }
                let out = convert_kind(ks[k], tools, bytes, guess, cx);
                let ghost o = registry::outcome(out);
                assert(cx@ == converters::zip::counted(c, cx@.expanded, cx@.embedded));
                assert(kind_converts(
                    *tools,
                    order()[k as int],
                    bytes@,
                    dv.guesses[g as int],
                    c,
                    converters::zip::counted(c, cx@.expanded, cx@.embedded),
                    o,
                ));
                assert(converters::zip::ended(cx@.expanded, cx@.embedded, o));
                match out {
                    Ok(d) => {
                        let mut doc = d;
                        if let Some(m) = &det.mismatch {
                            doc.warn(Warning::new(WarningKind::TypeMismatch, m));
                        }
                        assert(tries_from(
                            *tools,
                            bytes@,
                            dv.guesses,
                            dv.mismatch,
                            g as int,
                            k as int,
                            l,
                            c,
                            cx@,
                            Ok::<DocumentV, ErrorV>(doc@),
                        ));
                        return Ok(doc);
                    },
                    Err(e) => {
                        if let ConvertError::LimitExceeded { .. } = &e {
                            assert(tries_from(
                                *tools,
                                bytes@,
                                dv.guesses,
                                dv.mismatch,
                                g as int,
                                k as int,
                                l,
                                c,
                                cx@,
                                o,
                            ));
                            return Err(e);
                        }
                        last = Some(e);
                    },
                }
                assert forall|p: CxV, q: Result<DocumentV, ErrorV>| #[trigger]
                    tries_from(
                        *tools,
                        bytes@,
                        dv.guesses,
                        dv.mismatch,
                        g as int,
                        k + 1,
                        registry::error_view(last),
                        cx@,
                        p,
                        q,
                    ) implies member_converts(*tools, bytes@, info@, pre, p, q) by {
                    assert(tries_from(
                        *tools,
                        bytes@,
                        dv.guesses,
                        dv.mismatch,
                        g as int,
                        k as int,
                        l,
                        c,
                        p,
                        q,
                    ));
                }
            } else {
                assert forall|p: CxV, q: Result<DocumentV, ErrorV>| #[trigger]
                    tries_from(
                        *tools,
                        bytes@,
                        dv.guesses,
                        dv.mismatch,
                        g as int,
                        k + 1,
                        l,
                        cx@,
                        p,
                        q,
                    ) implies member_converts(*tools, bytes@, info@, pre, p, q) by {
                    assert(tries_from(
                        *tools,
                        bytes@,
                        dv.guesses,
                        dv.mismatch,
                        g as int,
                        k as int,
                        l,
                        c,
                        p,
                        q,
                    ));
                }
            }
            k += 1;
        }
        assert forall|p: CxV, q: Result<DocumentV, ErrorV>| #[trigger]
            tries_from(
                *tools,
                bytes@,
                dv.guesses,
                dv.mismatch,
                g + 1,
                0,
                registry::error_view(last),
                cx@,
                p,
                q,
            ) implies member_converts(*tools, bytes@, info@, pre, p, q) by {
            assert(tries_from(
                *tools,
                bytes@,
                dv.guesses,
                dv.mismatch,
                g as int,
                k as int,
                registry::error_view(last),
                cx@,
                p,
                q,
            ));
        }
        g += 1;
    }
    let e = registry::give_up(&det.guesses, last);
    assert(tries_from(
        *tools,
        bytes@,
        dv.guesses,
        dv.mismatch,
        g as int,
        0,
        registry::error_view(last),
        cx@,
        cx@,
        Err::<DocumentV, ErrorV>(e@),
    ));
    Err(e)
}

fn name_of_kind(k: Kind) -> (r: &'static str)
    ensures
        r@ == kind_named(k),
{
    match k {
        Kind::Text => TextConverter.name(),
        Kind::Zip => "zip",
        Kind::Html => "html",
        Kind::Csv => CsvConverter.name(),
        Kind::Json => JsonConverter.name(),
        Kind::Ipynb => IpynbConverter.name(),
        Kind::Xml => XmlConverter.name(),
        Kind::Feed => FeedConverter.name(),
        Kind::Docx => DocxConverter.name(),
        Kind::Pptx => PptxConverter.name(),
        Kind::Spreadsheet => "spreadsheet",
        Kind::Epub => EpubConverter.name(),
        Kind::Pdf => "pdf",
        Kind::Image => ImageConverter.name(),
        Kind::Audio => "audio",
        Kind::Msg => OutlookMsgConverter.name(),
    }
}

fn rank_of_kind(k: Kind) -> (r: i32)
    ensures
        r == kind_ranked(k),
{
    match k {
        Kind::Text => TextConverter.priority(),
        Kind::Zip => PRIORITY_GENERIC + 10,
        Kind::Html => PRIORITY_GENERIC,
        Kind::Csv => CsvConverter.priority(),
        Kind::Json => JsonConverter.priority(),
        Kind::Ipynb => IpynbConverter.priority(),
        Kind::Xml => XmlConverter.priority(),
        Kind::Feed => FeedConverter.priority(),
        Kind::Docx => DocxConverter.priority(),
        Kind::Pptx => PptxConverter.priority(),
        Kind::Spreadsheet => PRIORITY_SPECIFIC,
        Kind::Epub => EpubConverter.priority(),
        Kind::Pdf => PRIORITY_SPECIFIC,
        Kind::Image => ImageConverter.priority(),
        Kind::Audio => PRIORITY_SPECIFIC,
        Kind::Msg => OutlookMsgConverter.priority(),
    }
}

/// One of the library's own converters, with what the host extracts.
#[derive(Clone, Copy)]
pub struct Builtin<X> {
    pub kind: Kind,
    pub tools: X,
}

impl<X: Extractor> Converter for Builtin<X> {
    open spec fn named(&self) -> Seq<char> {
        kind_named(self.kind)
    }

    open spec fn ranked(&self) -> i32 {
        kind_ranked(self.kind)
    }

    open spec fn takes(&self, probe: ProbeV, info: StreamInfoV) -> bool {
        kind_takes(self.kind, probe, info)
    }

    open spec fn converts(
        &self,
        bytes: Seq<u8>,
        info: StreamInfoV,
        pre: CxV,
        post: CxV,
        r: Result<DocumentV, ErrorV>,
    ) -> bool {
        kind_converts(self.tools, self.kind, bytes, info, pre, post, r)
    }

    fn name(&self) -> (r: &'static str) {
        name_of_kind(self.kind)
    }

    fn priority(&self) -> (r: i32) {
        rank_of_kind(self.kind)
    }

    fn accepts(&self, probe: &Probe<'_>, info: &StreamInfo) -> (r: bool) {
        accepts_kind(self.kind, probe, info)
    }

    fn convert(&self, bytes: &[u8], info: &StreamInfo, cx: &mut ConvertCx<'_>) -> (r: Result<
        Document,
        ConvertError,
    >) {
        convert_kind(self.kind, &self.tools, bytes, info, cx)
    }
}

pub open spec fn order_names() -> Seq<Seq<char>> {
    Seq::new(order().len(), |i: int| kind_named(order()[i]))
}

/// The entry of one of the library's own converters.
pub open spec fn entry_of<X>(k: Kind, tools: X) -> Entry<Builtin<X>> {
    Entry { converter: Builtin { kind: k, tools }, priority: kind_ranked(k) }
}

pub open spec fn entries_of<X>(ks: Seq<Kind>, tools: X) -> Seq<Entry<Builtin<X>>> {
    Seq::new(ks.len(), |i: int| entry_of(ks[i], tools))
}

/// The entries of the library's own converters.
pub open spec fn builtin_entries<X>(tools: X) -> Seq<Entry<Builtin<X>>> {
    entries_of(order(), tools)
}

fn enlist<X: Extractor>(
    r: &mut ConverterRegistry<Builtin<X>>,
    kind: Kind,
    tools: X,
    Ghost(ks): Ghost<Seq<Kind>>,
    Ghost(place): Ghost<int>,
)
    requires
        old(r).entries() == entries_of(ks, tools),
        0 <= place <= ks.len(),
        forall|i: int| 0 <= i < place ==> kind_ranked(#[trigger] ks[i]) < kind_ranked(kind),
        place < ks.len() ==> kind_ranked(ks[place]) >= kind_ranked(kind),
    ensures
        final(r).entries() == entries_of(ks.insert(place, kind), tools),
{
    let ghost s = r.entries();
    let ghost e = entry_of(kind, tools);
    r.register(Builtin { kind, tools });
    proof {
        assert forall|i: int| 0 <= i < place implies registry::runs_before(#[trigger] s[i], e) by {
            assert(s[i] == entry_of(ks[i], tools));
        }
        if place < s.len() {
            assert(s[place] == entry_of(ks[place], tools));
        }
        registry::lemma_rank_is(s, e, place);
        assert(r.entries() =~= entries_of(ks.insert(place, kind), tools));
    }
}

fn enlist_text_formats<X: Extractor>(r: &mut ConverterRegistry<Builtin<X>>, tools: X)
    requires
        old(r).entries().len() == 0,
    ensures
        final(r).entries() == entries_of(
            seq![Kind::Ipynb, Kind::Json, Kind::Csv, Kind::Html, Kind::Zip, Kind::Text],
            tools,
        ),
{
    let ghost s0: Seq<Kind> = seq![];
    let ghost s1 = seq![Kind::Text];
    let ghost s2 = seq![Kind::Zip, Kind::Text];
    let ghost s3 = seq![Kind::Html, Kind::Zip, Kind::Text];
    let ghost s4 = seq![Kind::Csv, Kind::Html, Kind::Zip, Kind::Text];
    let ghost s5 = seq![Kind::Json, Kind::Csv, Kind::Html, Kind::Zip, Kind::Text];
    let ghost s6 = seq![Kind::Ipynb, Kind::Json, Kind::Csv, Kind::Html, Kind::Zip, Kind::Text];
    assert(r.entries() =~= entries_of(s0, tools));
    enlist(r, Kind::Text, tools, Ghost(s0), Ghost(0));
    assert(s0.insert(0, Kind::Text) =~= s1);
    enlist(r, Kind::Zip, tools, Ghost(s1), Ghost(0));
    assert(s1.insert(0, Kind::Zip) =~= s2);
    enlist(r, Kind::Html, tools, Ghost(s2), Ghost(0));
    assert(s2.insert(0, Kind::Html) =~= s3);
    enlist(r, Kind::Csv, tools, Ghost(s3), Ghost(0));
    assert(s3.insert(0, Kind::Csv) =~= s4);
    enlist(r, Kind::Json, tools, Ghost(s4), Ghost(0));
    assert(s4.insert(0, Kind::Json) =~= s5);
    enlist(r, Kind::Ipynb, tools, Ghost(s5), Ghost(0));
    assert(s5.insert(0, Kind::Ipynb) =~= s6);
}

fn enlist_office_formats<X: Extractor>(r: &mut ConverterRegistry<Builtin<X>>, tools: X)
    requires
        old(r).entries() == entries_of(
            seq![Kind::Ipynb, Kind::Json, Kind::Csv, Kind::Html, Kind::Zip, Kind::Text],
            tools,
        ),
    ensures
        final(r).entries() == entries_of(
            seq![Kind::Ipynb, Kind::Spreadsheet, Kind::Pptx, Kind::Docx, Kind::Feed] + seq![
                Kind::Json,
                Kind::Csv,
                Kind::Xml,
                Kind::Html,
                Kind::Zip,
                Kind::Text,
            ],
            tools,
        ),
{
    let ghost tail = seq![Kind::Json, Kind::Csv, Kind::Xml, Kind::Html, Kind::Zip, Kind::Text];
    let ghost s6 = seq![Kind::Ipynb, Kind::Json, Kind::Csv, Kind::Html, Kind::Zip, Kind::Text];
    let ghost s7 = seq![Kind::Ipynb] + tail;
    let ghost s8 = seq![Kind::Ipynb, Kind::Feed] + tail;
    let ghost s9 = seq![Kind::Ipynb, Kind::Docx, Kind::Feed] + tail;
    let ghost s10 = seq![Kind::Ipynb, Kind::Pptx, Kind::Docx, Kind::Feed] + tail;
    let ghost s11 = seq![Kind::Ipynb, Kind::Spreadsheet, Kind::Pptx, Kind::Docx, Kind::Feed] + tail;
    enlist(r, Kind::Xml, tools, Ghost(s6), Ghost(3));
    assert(s6.insert(3, Kind::Xml) =~= s7);
    enlist(r, Kind::Feed, tools, Ghost(s7), Ghost(1));
    assert(s7.insert(1, Kind::Feed) =~= s8);
    enlist(r, Kind::Docx, tools, Ghost(s8), Ghost(1));
    assert(s8.insert(1, Kind::Docx) =~= s9);
    enlist(r, Kind::Pptx, tools, Ghost(s9), Ghost(1));
    assert(s9.insert(1, Kind::Pptx) =~= s10);
    enlist(r, Kind::Spreadsheet, tools, Ghost(s10), Ghost(1));
    assert(s10.insert(1, Kind::Spreadsheet) =~= s11);
}

fn enlist_other_formats<X: Extractor>(r: &mut ConverterRegistry<Builtin<X>>, tools: X)
    requires
        old(r).entries() == entries_of(
            seq![Kind::Ipynb, Kind::Spreadsheet, Kind::Pptx, Kind::Docx, Kind::Feed] + seq![
                Kind::Json,
                Kind::Csv,
                Kind::Xml,
                Kind::Html,
                Kind::Zip,
                Kind::Text,
            ],
            tools,
        ),
    ensures
        final(r).entries() == builtin_entries(tools),
{
    let ghost rest = seq![Kind::Spreadsheet, Kind::Pptx, Kind::Docx, Kind::Feed] + seq![
        Kind::Json,
        Kind::Csv,
        Kind::Xml,
        Kind::Html,
        Kind::Zip,
        Kind::Text,
    ];
    let ghost s11 = seq![Kind::Ipynb] + rest;
    let ghost s12 = seq![Kind::Ipynb, Kind::Epub] + rest;
    let ghost s13 = seq![Kind::Ipynb, Kind::Pdf, Kind::Epub] + rest;
    let ghost s14 = seq![Kind::Ipynb, Kind::Image, Kind::Pdf, Kind::Epub] + rest;
    let ghost s15 = seq![Kind::Ipynb, Kind::Audio, Kind::Image, Kind::Pdf, Kind::Epub] + rest;
    assert(s11 =~= seq![Kind::Ipynb, Kind::Spreadsheet, Kind::Pptx, Kind::Docx, Kind::Feed] + seq![
        Kind::Json,
        Kind::Csv,
        Kind::Xml,
        Kind::Html,
        Kind::Zip,
        Kind::Text,
    ]);
    enlist(r, Kind::Epub, tools, Ghost(s11), Ghost(1));
    assert(s11.insert(1, Kind::Epub) =~= s12);
    enlist(r, Kind::Pdf, tools, Ghost(s12), Ghost(1));
    assert(s12.insert(1, Kind::Pdf) =~= s13);
    enlist(r, Kind::Image, tools, Ghost(s13), Ghost(1));
    assert(s13.insert(1, Kind::Image) =~= s14);
    enlist(r, Kind::Audio, tools, Ghost(s14), Ghost(1));
    assert(s14.insert(1, Kind::Audio) =~= s15);
    enlist(r, Kind::Msg, tools, Ghost(s15), Ghost(1));
    assert(s15.insert(1, Kind::Msg) =~= order());
}

/// The registry of the library's own converters.
#[must_use]
pub fn builtin_registry<X: Extractor>(tools: X) -> (r: ConverterRegistry<Builtin<X>>)
    ensures
        r.entries() == builtin_entries(tools),
        registry::names_of(r.entries()) == order_names(),
{
    let mut r: ConverterRegistry<Builtin<X>> = ConverterRegistry::new();
    enlist_text_formats(&mut r, tools);
    enlist_office_formats(&mut r, tools);
    enlist_other_formats(&mut r, tools);
    assert(registry::names_of(r.entries()) =~= order_names());
    r
}

/// The names of the library's own converters, in the order in which they are
/// tried.
#[must_use]
pub fn builtin_names() -> (r: Vec<&'static str>)
    ensures
        registry::strs(r@) == order_names(),
{
    let ks = kinds();
    let mut out: Vec<&'static str> = Vec::new();
    let mut i: usize = 0;
    while i < ks.len()
        invariant
            i <= ks@.len(),
            ks@ == order(),
            out@.len() == i,
            forall|k: int| 0 <= k < i ==> (#[trigger] out@[k])@ == kind_named(order()[k]),
        decreases ks@.len() - i,
    {
        out.push(name_of_kind(ks[i]));
        i += 1;
    }
    assert(registry::strs(out@) =~= order_names());
    out
}

/// Every format has its place, and the formats that would take almost anything
/// come after those that would not.
pub proof fn formats_are_in_order()
    ensures
        forall|k: Kind| #[trigger] order().contains(k),
        forall|i: int, j: int|
            0 <= i <= j < order().len() ==> kind_ranked(#[trigger] order()[i]) <= kind_ranked(
                #[trigger] order()[j],
            ),
{
    let o = order();
    assert(o[0] == Kind::Ipynb && o[1] == Kind::Msg && o[2] == Kind::Audio && o[3] == Kind::Image);
    assert(o[4] == Kind::Pdf && o[5] == Kind::Epub && o[6] == Kind::Spreadsheet && o[7]
        == Kind::Pptx);
    assert(o[8] == Kind::Docx && o[9] == Kind::Feed && o[10] == Kind::Json && o[11] == Kind::Csv);
    assert(o[12] == Kind::Xml && o[13] == Kind::Html && o[14] == Kind::Zip && o[15] == Kind::Text);
}

} // verus!

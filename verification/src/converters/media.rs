//! Images and audio: what their metadata says.

use std::io::Cursor;
use vstd::prelude::*;
use crate::chars;
use crate::converters::extract::{Extracted, ExtractedV, Extractor};
use crate::cx::{ConvertCx, CxV};
use crate::error::{ConvertError, ErrorV, Warning, WarningKind, WarningV};
use crate::ir;
use crate::ir::{Block, BlockV, Document, DocumentV, Image, ImageRef, ImageRefV, ImageV, Inline};
use crate::ir::{MetadataV, SpanV};
use crate::registry;
use crate::registry::{Converter, PRIORITY_SPECIFIC};
use crate::stream_info::{Probe, ProbeV, StreamInfo, StreamInfoV};
use crate::text;

verus! {

/// The EXIF fields of a file: the tag's description, where it has one, and the
/// value as shown. Nothing where the file carries no EXIF data.
pub uninterp spec fn exif_fields(bytes: Seq<u8>) -> Option<
    Seq<(Option<Seq<char>>, Seq<char>)>,
>;

pub open spec fn fields_view(s: Seq<(Option<String>, String)>) -> Seq<
    (Option<Seq<char>>, Seq<char>),
> {
    Seq::new(s.len(), |i: int| (chars::opt(s[i].0), s[i].1@))
}

pub open spec fn opt_fields_view(o: Option<Vec<(Option<String>, String)>>) -> Option<
    Seq<(Option<Seq<char>>, Seq<char>)>,
> {
    match o {
        Some(v) => Some(fields_view(v@)),
        None => None,
    }
}

/// `exif::Reader::read_from_container` and `Exif::fields`: each field's tag
/// description and displayed value, in the file's order; a function of the
/// bytes.
#[verifier::external_body]
fn exif_of(bytes: &[u8]) -> (r: Option<Vec<(Option<String>, String)>>)
    ensures
        opt_fields_view(r) == exif_fields(bytes@),
{
    exif::Reader::new().read_from_container(&mut Cursor::new(bytes)).ok().map(|x| {
        x.fields()
            .map(|f| (
                f.tag.description().map(|d| d.to_owned()),
                f.display_value().with_unit(&x).to_string(),
            ))
            .collect()
    })
}

/// Images.
pub struct ImageConverter;

pub open spec fn is_image_ext(e: Option<Seq<char>>) -> bool {
    match e {
        Some(e) => e == "jpg"@ || e == "jpeg"@ || e == "png"@ || e == "gif"@ || e == "webp"@ || e
            == "tif"@ || e == "tiff"@ || e == "heic"@ || e == "heif"@ || e == "avif"@,
        None => false,
    }
}

pub open spec fn mime_starts(info: StreamInfoV, p: Seq<char>) -> bool {
    match info.mimetype {
        Some(m) => chars::starts_with(m, p),
        None => false,
    }
}

pub open spec fn image_takes(probe: ProbeV, info: StreamInfoV) -> bool {
    mime_starts(info, "image/"@) || (is_image_ext(info.extension) && !probe.looks_textual())
}

/// The tags that are kept.
pub open spec fn is_kept_tag(d: Seq<char>) -> bool {
    d == "Image title"@ || d == "Image description"@ || d
        == "Manufacturer of image input equipment"@ || d == "Model of image input equipment"@ || d
        == "Date and time of image creation"@ || d == "Date and time of original data generation"@
        || d == "Person who created the image"@ || d == "Copyright holder"@ || d == "Image width"@
        || d == "Image height"@ || d == "Orientation of image"@ || d == "Exposure time"@ || d
        == "F number"@ || d == "ISO speed"@ || d == "Lens model"@ || d == "GPS latitude"@ || d
        == "GPS longitude"@
}

/// The kept fields, under their descriptions without spaces.
pub open spec fn kept_fields(fields: Seq<(Option<Seq<char>>, Seq<char>)>) -> Seq<
    (Seq<char>, Seq<char>),
>
    decreases fields.len(),
{
    if fields.len() == 0 {
        seq![]
    } else {
        let t = kept_fields(fields.drop_last());
        match fields.last().0 {
            Some(d) => if is_kept_tag(d) {
                t.push((chars::replace(d, " "@, ""@), fields.last().1))
            } else {
                t
            },
            None => t,
        }
    }
}

pub open spec fn spec_read_exif(fields: Option<Seq<(Option<Seq<char>>, Seq<char>)>>) -> Seq<
    (Seq<char>, Seq<char>),
> {
    match fields {
        Some(f) => kept_fields(f),
        None => seq![],
    }
}

pub open spec fn apply_field(m: MetadataV, f: (Seq<char>, Seq<char>)) -> MetadataV {
    if f.0 == "Artist"@ {
        MetadataV { author: Some(f.1), ..m }
    } else if f.0 == "DateTimeOriginal"@ || f.0 == "DateTime"@ {
        MetadataV {
            created: match m.created {
                Some(c) => Some(c),
                None => Some(f.1),
            },
            ..m
        }
    } else {
        m.with(f.0, f.1)
    }
}

pub open spec fn apply_fields(m: MetadataV, fs: Seq<(Seq<char>, Seq<char>)>) -> MetadataV
    decreases fs.len(),
{
    if fs.len() == 0 {
        m
    } else {
        apply_field(apply_fields(m, fs.drop_last()), fs.last())
    }
}

pub open spec fn titled_by_file(info: StreamInfoV) -> DocumentV {
    match info.filename {
        Some(f) => ir::empty_document().titled(f),
        None => ir::empty_document(),
    }
}

pub open spec fn image_warning(no_fields: bool) -> WarningV {
    WarningV {
        kind: WarningKind::Degraded,
        message: if no_fields {
            "the image carries no EXIF metadata; without LLM enrichment there is nothing to convert but the filename"@
        } else {
            "image converted from metadata only; enable llm.enrich.images for a description of what it depicts"@
        },
    }
}

/// What an image becomes, given its kept fields.
pub open spec fn image_document(fs: Seq<(Seq<char>, Seq<char>)>, info: StreamInfoV) -> DocumentV {
    let t = titled_by_file(info);
    let d = DocumentV { metadata: apply_fields(t.metadata, fs), ..t };
    let described = match ir::lookup(fs, "ImageDescription"@) {
        Some(s) => d.pushed(BlockV::Paragraph(seq![SpanV::Text(s)])),
        None => d,
    };
    described.pushed(
        BlockV::Image(
            ImageV {
                alt: info.filename,
                caption: None,
                source: match info.url {
                    Some(u) => ImageRefV::Resource(u),
                    None => ImageRefV::Absent,
                },
            },
        ),
    ).warned(image_warning(fs.len() == 0))
}

fn kept_tag(d: &str) -> (r: bool)
    ensures
        r == is_kept_tag(d@),
{
    text::eq(d, "Image title") || text::eq(d, "Image description") || text::eq(
        d,
        "Manufacturer of image input equipment",
    ) || text::eq(d, "Model of image input equipment") || text::eq(
        d,
        "Date and time of image creation",
    ) || text::eq(d, "Date and time of original data generation") || text::eq(
        d,
        "Person who created the image",
    ) || text::eq(d, "Copyright holder") || text::eq(d, "Image width") || text::eq(
        d,
        "Image height",
    ) || text::eq(d, "Orientation of image") || text::eq(d, "Exposure time") || text::eq(
        d,
        "F number",
    ) || text::eq(d, "ISO speed") || text::eq(d, "Lens model") || text::eq(d, "GPS latitude")
        || text::eq(d, "GPS longitude")
}

fn read_exif(fields: Option<Vec<(Option<String>, String)>>) -> (r: Vec<(String, String)>)
    ensures
        ir::pairs_view(r@) == spec_read_exif(opt_fields_view(fields)),
{
    let mut out: Vec<(String, String)> = Vec::new();
    assert(ir::pairs_view(out@) =~= seq![]);
    if let Some(fs) = fields {
        let ghost v = fields_view(fs@);
        let mut i: usize = 0;
        while i < fs.len()
            invariant
                i <= fs@.len(),
                v == fields_view(fs@),
                ir::pairs_view(out@) == kept_fields(v.take(i as int)),
            decreases fs@.len() - i,
        {
            assert(v.take(i + 1).drop_last() =~= v.take(i as int));
            assert(v.take(i + 1).last() == v[i as int]);
            if let Some(d) = &fs[i].0 {
                if kept_tag(d) {
                    let ghost before = out@;
                    let pair = (text::replace(d, " ", ""), fs[i].1.clone());
                    out.push(pair);
                    assert(ir::pairs_view(out@) =~= ir::pairs_view(before).push(
                        (pair.0@, pair.1@),
                    ));
                }
            }
            i += 1;
        }
        assert(v.take(v.len() as int) =~= v);
    }
    out
}

fn add_fields(doc: &mut Document, fs: &Vec<(String, String)>)
    ensures
        final(doc)@ == (DocumentV {
            metadata: apply_fields(old(doc)@.metadata, ir::pairs_view(fs@)),
            ..old(doc)@
        }),
{
    let ghost v = ir::pairs_view(fs@);
    let ghost d0 = doc@;
    let mut i: usize = 0;
    while i < fs.len()
        invariant
            i <= fs@.len(),
            v == ir::pairs_view(fs@),
            doc@ == (DocumentV { metadata: apply_fields(d0.metadata, v.take(i as int)), ..d0 }),
        decreases fs@.len() - i,
    {
        assert(v.take(i + 1).drop_last() =~= v.take(i as int));
        let k = &fs[i].0;
        let x = &fs[i].1;
        if text::eq(k, "Artist") {
            doc.metadata.author = Some(x.clone());
        } else if text::eq(k, "DateTimeOriginal") || text::eq(k, "DateTime") {
            if doc.metadata.created.is_none() {
                doc.metadata.created = Some(x.clone());
            }
        } else {
            doc.metadata.set(k, x);
        }
        i += 1;
    }
    assert(v.take(v.len() as int) =~= v);
}

/// What an image becomes, given its EXIF fields.
pub fn image_from_fields(
    fields: Option<Vec<(Option<String>, String)>>,
    info: &StreamInfo,
) -> (r: Document)
    ensures
        r@ == image_document(spec_read_exif(opt_fields_view(fields)), info@),
{
    let mut doc = Document::new();
    if let Some(f) = &info.filename {
        doc = doc.with_title(f);
    }
    let fs = read_exif(fields);
    add_fields(&mut doc, &fs);
    if let Some(d) = crate::converters::xml::find_pair(&fs, "ImageDescription") {
        doc.push(Block::Paragraph(Inline::text(d)));
    }
    doc.push(
        Block::Image(
            Image {
                alt: text::opt_clone(&info.filename),
                caption: None,
                source: match &info.url {
                    Some(u) => ImageRef::Resource(u.clone()),
                    None => ImageRef::Absent,
                },
            },
        ),
    );
    if fs.len() == 0 {
        doc.warn(
            Warning::new(
                WarningKind::Degraded,
                "the image carries no EXIF metadata; without LLM enrichment there is nothing to convert but the filename",
            ),
        );
    } else {
        doc.warn(
            Warning::new(
                WarningKind::Degraded,
                "image converted from metadata only; enable llm.enrich.images for a description of what it depicts",
            ),
        );
    }
    doc
}

fn ext_among(e: &Option<String>, audio: bool) -> (r: bool)
    ensures
        r == (if audio {
            is_audio_ext(chars::opt(*e))
        } else {
            is_image_ext(chars::opt(*e))
        }),
{
    match e {
        Some(e) => if audio {
            text::eq(e, "mp3") || text::eq(e, "wav") || text::eq(e, "flac") || text::eq(e, "m4a")
                || text::eq(e, "aac") || text::eq(e, "ogg") || text::eq(e, "opus")
        } else {
            text::eq(e, "jpg") || text::eq(e, "jpeg") || text::eq(e, "png") || text::eq(e, "gif")
                || text::eq(e, "webp") || text::eq(e, "tif") || text::eq(e, "tiff") || text::eq(
                e,
                "heic",
            ) || text::eq(e, "heif") || text::eq(e, "avif")
        },
        None => false,
    }
}

fn has_mime_prefix(info: &StreamInfo, p: &str) -> (r: bool)
    ensures
        r == mime_starts(info@, p@),
{
    match &info.mimetype {
        Some(m) => text::starts_with(m, p),
        None => false,
    }
}

impl Converter for ImageConverter {
    open spec fn named(&self) -> Seq<char> {
        "image"@
    }

    open spec fn ranked(&self) -> i32 {
        0
    }

    open spec fn takes(&self, probe: ProbeV, info: StreamInfoV) -> bool {
        image_takes(probe, info)
    }

    open spec fn converts(
        &self,
        bytes: Seq<u8>,
        info: StreamInfoV,
        pre: CxV,
        post: CxV,
        r: Result<DocumentV, ErrorV>,
    ) -> bool {
        post == pre && r == Ok::<DocumentV, ErrorV>(
            image_document(spec_read_exif(exif_fields(bytes)), info),
        )
    }

    fn name(&self) -> (r: &'static str) {
        "image"
    }

    fn priority(&self) -> (r: i32) {
        PRIORITY_SPECIFIC
    }

    fn accepts(&self, probe: &Probe<'_>, info: &StreamInfo) -> (r: bool) {
        has_mime_prefix(info, "image/") || (ext_among(&info.extension, false)
            && !probe.looks_textual())
    }

    fn convert(&self, bytes: &[u8], info: &StreamInfo, cx: &mut ConvertCx<'_>) -> (r: Result<
        Document,
        ConvertError,
    >) {
        let fields = exif_of(bytes);
        Ok(image_from_fields(fields, info))
    }
}

/// How an audio file read.
pub enum AudioRead {
    /// The bytes are no audio container that is known.
    Unknown,
    /// The container could not be read, with this message.
    Unread(String),
    Read(AudioFacts),
}

/// The value of how an audio file read.
#[verifier::ext_equal]
pub enum AudioReadV {
    Unknown,
    Unread(Seq<char>),
    Read(AudioV),
}

impl View for AudioRead {
    type V = AudioReadV;

    open spec fn view(&self) -> AudioReadV {
        match *self {
            AudioRead::Unknown => AudioReadV::Unknown,
            AudioRead::Unread(m) => AudioReadV::Unread(m@),
            AudioRead::Read(a) => AudioReadV::Read(a@),
        }
    }
}

pub open spec fn read_view(r: Extracted<AudioRead>) -> ExtractedV<AudioReadV> {
    match r {
        Extracted::Ready(a) => ExtractedV::Ready(a@),
        Extracted::Failed(m) => ExtractedV::Failed(m@),
        Extracted::Panicked => ExtractedV::Panicked,
    }
}

/// Audio; the host reads the container.
pub struct AudioConverter<X>(pub X);

/// Stands where a transcript would.
pub const TRANSCRIPT_PLACEHOLDER: &'static str = "[audio: no transcript]";

pub open spec fn is_audio_ext(e: Option<Seq<char>>) -> bool {
    match e {
        Some(e) => e == "mp3"@ || e == "wav"@ || e == "flac"@ || e == "m4a"@ || e == "aac"@ || e
            == "ogg"@ || e == "opus"@,
        None => false,
    }
}

pub open spec fn audio_takes(probe: ProbeV, info: StreamInfoV) -> bool {
    mime_starts(info, "audio/"@) || (is_audio_ext(info.extension) && !probe.looks_textual())
}

/// What an audio file says about itself.
#[verifier::ext_equal]
pub struct AudioV {
    pub seconds: u64,
    pub bitrate: Option<u32>,
    pub sample_rate: Option<u32>,
    pub title: Option<Seq<char>>,
    pub artist: Option<Seq<char>>,
    pub album: Option<Seq<char>>,
    pub date: Option<Seq<char>>,
    pub comment: Option<Seq<char>>,
}

pub open spec fn with_opt(m: MetadataV, key: Seq<char>, v: Option<Seq<char>>) -> MetadataV {
    match v {
        Some(s) => m.with(key, s),
        None => m,
    }
}

pub open spec fn opt_decimal(n: Option<u32>) -> Option<Seq<char>> {
    match n {
        Some(n) => Some(chars::decimal(n as nat)),
        None => None,
    }
}

/// The metadata with what an audio file says.
pub open spec fn audio_metadata(m: MetadataV, a: AudioV) -> MetadataV {
    let p = with_opt(
        with_opt(
            m.with("duration_seconds"@, chars::decimal(a.seconds as nat)),
            "bitrate_kbps"@,
            opt_decimal(a.bitrate),
        ),
        "sample_rate_hz"@,
        opt_decimal(a.sample_rate),
    );
    let t = with_opt(p, "track_title"@, a.title);
    let named = match a.artist {
        Some(s) => MetadataV { author: Some(s), ..t },
        None => t,
    };
    with_opt(with_opt(with_opt(named, "album"@, a.album), "recorded"@, a.date), "comment"@, a.comment)
}

/// The document with what an audio file says.
pub open spec fn with_audio(d: DocumentV, a: AudioV) -> DocumentV {
    DocumentV {
        metadata: audio_metadata(d.metadata, a),
        title: match a.title {
            Some(t) => Some(t),
            None => d.title,
        },
        ..d
    }
}

pub open spec fn audio_warning() -> WarningV {
    WarningV {
        kind: WarningKind::Degraded,
        message: "audio converted from metadata only; enable llm.enrich.audio for a transcript"@,
    }
}

pub open spec fn finish_audio(d: DocumentV) -> DocumentV {
    d.pushed(BlockV::Paragraph(seq![SpanV::Text("[audio: no transcript]"@)])).warned(
        audio_warning(),
    )
}

/// What an audio file becomes, given how it read.
pub open spec fn audio_document(read: ExtractedV<AudioReadV>, info: StreamInfoV) -> Result<
    DocumentV,
    ErrorV,
> {
    let d = titled_by_file(info);
    match read {
        ExtractedV::Panicked => Err(ErrorV::ConverterPanic { format: "audio"@ }),
        ExtractedV::Failed(m) => Err(ErrorV::Malformed { format: "audio"@, message: m }),
        ExtractedV::Ready(AudioReadV::Unknown) => Err(
            ErrorV::Malformed {
                format: "audio"@,
                message: "no recognisable audio container"@,
            },
        ),
        ExtractedV::Ready(AudioReadV::Unread(m)) => Ok(
            finish_audio(
                d.warned(
                    WarningV {
                        kind: WarningKind::Degraded,
                        message: "audio tags could not be read: "@ + m,
                    },
                ),
            ),
        ),
        ExtractedV::Ready(AudioReadV::Read(a)) => Ok(finish_audio(with_audio(d, a))),
    }
}

/// What an audio file may become: what the host read of it decides.
pub open spec fn audio_converts<X: Extractor>(
    tools: X,
    bytes: Seq<u8>,
    info: StreamInfoV,
    pre: CxV,
    post: CxV,
    r: Result<DocumentV, ErrorV>,
) -> bool {
    exists|read: ExtractedV<AudioReadV>| #[trigger]
        tools.may_give_audio(bytes, read) && post == pre && r == audio_document(read, info)
}

/// What an audio file says about itself, as it was read.
pub struct AudioFacts {
    pub seconds: u64,
    pub bitrate: Option<u32>,
    pub sample_rate: Option<u32>,
    pub title: Option<String>,
    pub artist: Option<String>,
    pub album: Option<String>,
    pub date: Option<String>,
    pub comment: Option<String>,
}

impl View for AudioFacts {
    type V = AudioV;

    open spec fn view(&self) -> AudioV {
        AudioV {
            seconds: self.seconds,
            bitrate: self.bitrate,
            sample_rate: self.sample_rate,
            title: chars::opt(self.title),
            artist: chars::opt(self.artist),
            album: chars::opt(self.album),
            date: chars::opt(self.date),
            comment: chars::opt(self.comment),
        }
    }
}

fn set_opt(doc: &mut Document, key: &str, v: &Option<String>)
    ensures
        final(doc)@ == (DocumentV {
            metadata: with_opt(old(doc)@.metadata, key@, chars::opt(*v)),
            ..old(doc)@
        }),
{
    if let Some(s) = v {
        doc.metadata.set(key, s);
    }
}

fn set_number(doc: &mut Document, key: &str, v: Option<u32>)
    ensures
        final(doc)@ == (DocumentV {
            metadata: with_opt(old(doc)@.metadata, key@, opt_decimal(v)),
            ..old(doc)@
        }),
{
    if let Some(n) = v {
        doc.metadata.set(key, text::decimal(n as u64));
    }
}

/// Adds what an audio file says to a document.
pub fn add_audio(doc: &mut Document, a: &AudioFacts)
    ensures
        final(doc)@ == with_audio(old(doc)@, a@),
{
    doc.metadata.set("duration_seconds", text::decimal(a.seconds));
    set_number(doc, "bitrate_kbps", a.bitrate);
    set_number(doc, "sample_rate_hz", a.sample_rate);
    set_opt(doc, "track_title", &a.title);
    if let Some(s) = &a.artist {
        doc.metadata.author = Some(s.clone());
    }
    set_opt(doc, "album", &a.album);
    set_opt(doc, "recorded", &a.date);
    set_opt(doc, "comment", &a.comment);
    if let Some(t) = &a.title {
        doc.title = Some(t.clone());
    }
}

/// What an audio file becomes, given how it read.
pub fn audio_from(read: Extracted<AudioRead>, info: &StreamInfo) -> (r: Result<
    Document,
    ConvertError,
>)
    ensures
        registry::outcome(r) == audio_document(read_view(read), info@),
{
    let mut doc = Document::new();
    if let Some(f) = &info.filename {
        doc = doc.with_title(f);
    }
    match read {
        Extracted::Panicked => {
            return Err(ConvertError::ConverterPanic { format: "audio" });
        },
        Extracted::Failed(m) => {
            return Err(ConvertError::Malformed { format: "audio", message: m });
        },
        Extracted::Ready(AudioRead::Unknown) => {
            return Err(
                ConvertError::Malformed {
                    format: "audio",
                    message: "no recognisable audio container".to_owned(),
                },
            );
        },
        Extracted::Ready(AudioRead::Unread(m)) => {
            let w = text::cat("audio tags could not be read: ", &m);
            doc.warn(Warning::new(WarningKind::Degraded, w));
        },
        Extracted::Ready(AudioRead::Read(a)) => {
            add_audio(&mut doc, &a);
        },
    }
    doc.push(Block::Paragraph(Inline::text(TRANSCRIPT_PLACEHOLDER)));
    doc.warn(
        Warning::new(
            WarningKind::Degraded,
            "audio converted from metadata only; enable llm.enrich.audio for a transcript",
        ),
    );
    Ok(doc)
}

/// Converts an audio file with what the host reads of it.
pub(crate) fn convert_audio<X: Extractor>(tools: &X, bytes: &[u8], info: &StreamInfo, cx: &mut ConvertCx<'_>) -> (r:
    Result<Document, ConvertError>)
    ensures
        *final(final(cx).budget) == *final(old(cx).budget),
        final(cx).start() == old(cx).start(),
        old(cx)@.grows_to(final(cx)@),
        audio_converts(*tools, bytes@, info@, old(cx)@, final(cx)@, registry::outcome(r)),
{
    let read = tools.audio(bytes);
    audio_from(read, info)
}

pub(crate) fn accepts_audio(probe: &Probe<'_>, info: &StreamInfo) -> (r: bool)
    ensures
        r == audio_takes(probe@, info@),
{
    has_mime_prefix(info, "audio/") || (ext_among(&info.extension, true) && !probe.looks_textual())
}

impl<X: Extractor> Converter for AudioConverter<X> {
    open spec fn named(&self) -> Seq<char> {
        "audio"@
    }

    open spec fn ranked(&self) -> i32 {
        0
    }

    open spec fn takes(&self, probe: ProbeV, info: StreamInfoV) -> bool {
        audio_takes(probe, info)
    }

    open spec fn converts(
        &self,
        bytes: Seq<u8>,
        info: StreamInfoV,
        pre: CxV,
        post: CxV,
        r: Result<DocumentV, ErrorV>,
    ) -> bool {
        audio_converts(self.0, bytes, info, pre, post, r)
    }

    fn name(&self) -> (r: &'static str) {
        "audio"
    }

    fn priority(&self) -> (r: i32) {
        PRIORITY_SPECIFIC
    }

    fn accepts(&self, probe: &Probe<'_>, info: &StreamInfo) -> (r: bool) {
        accepts_audio(probe, info)
    }

    fn convert(&self, bytes: &[u8], info: &StreamInfo, cx: &mut ConvertCx<'_>) -> (r: Result<
        Document,
        ConvertError,
    >) {
        convert_audio(&self.0, bytes, info, cx)
    }
}

/// A conversion from metadata alone says so: every image and every audio file
/// that converts carries the warning.
pub proof fn metadata_only_conversions_are_reported(
    fields: Seq<(Seq<char>, Seq<char>)>,
    read: ExtractedV<AudioReadV>,
    info: StreamInfoV,
)
    ensures
        image_document(fields, info).warnings.len() > 0,
        image_document(fields, info).warnings.last().kind == WarningKind::Degraded,
        audio_document(read, info) matches Ok(d) ==> d.warnings.len() > 0
            && d.warnings.last() == audio_warning(),
{
}

} // verus!

//! What an input is: from its bytes, its extension and its declared type.

use vstd::prelude::*;
use crate::archive;
use crate::bytes;
use crate::chars;
use crate::stream_info;
use crate::stream_info::{normalize_ext, Probe, StreamInfo, StreamInfoV};
use crate::text;

verus! {

/// What detection found out.
#[derive(Debug, Clone)]
pub struct Detection {
    /// The guesses, best first; no two share MIME type and extension, and the
    /// last is the caller's own view.
    pub guesses: Vec<StreamInfo>,
    /// What each of the guesses rests on.
    pub signals: Vec<Signal>,
    /// How the declared type contradicts the content.
    pub mismatch: Option<String>,
    /// What the best guess rests on.
    pub leading_signal: Signal,
}

/// The value of a [`Detection`].
#[verifier::ext_equal]
pub struct DetectionV {
    pub guesses: Seq<StreamInfoV>,
    pub signals: Seq<Signal>,
    pub mismatch: Option<Seq<char>>,
    pub leading_signal: Signal,
}

impl View for Detection {
    type V = DetectionV;

    open spec fn view(&self) -> DetectionV {
        DetectionV {
            guesses: stream_info::infos_view(self.guesses@),
            signals: self.signals@,
            mismatch: chars::opt(self.mismatch),
            leading_signal: self.leading_signal,
        }
    }
}

impl Default for Detection {
    fn default() -> (r: Self)
        ensures
            r@ == (DetectionV {
                guesses: seq![],
                signals: seq![],
                mismatch: None,
                leading_signal: Signal::Absent,
            }),
    {
        let r = Detection {
            guesses: Vec::new(),
            signals: Vec::new(),
            mismatch: None,
            leading_signal: Signal::Absent,
        };
        assert(r@.guesses =~= seq![]);
        assert(r@.signals =~= seq![]);
        r
    }
}

/// What a guess rests on.
#[derive(Debug, Clone, Copy, PartialEq, Eq, Default)]
pub enum Signal {
    /// The bytes.
    Content,
    /// The declared MIME type.
    Declared,
    /// The file extension.
    Extension,
    /// Nothing.
    #[default]
    Absent,
}

impl Signal {
    pub open spec fn name(self) -> Seq<char> {
        match self {
            Signal::Content => "content"@,
            Signal::Declared => "declared"@,
            Signal::Extension => "extension"@,
            Signal::Absent => "none"@,
        }
    }

    #[must_use]
    pub fn as_str(&self) -> (r: &'static str)
        ensures
            r@ == self.name(),
    {
        match self {
            Signal::Content => "content",
            Signal::Declared => "declared",
            Signal::Extension => "extension",
            Signal::Absent => "none",
        }
    }
}

pub open spec fn pdf_magic() -> Seq<u8> {
    seq![0x25u8, 0x50u8, 0x44u8, 0x46u8, 0x2du8]
}

pub open spec fn ole_magic() -> Seq<u8> {
    seq![0xD0u8, 0xCFu8, 0x11u8, 0xE0u8, 0xA1u8, 0xB1u8, 0x1Au8, 0xE1u8]
}

pub open spec fn zip_magic() -> Seq<u8> {
    seq![0x50u8, 0x4bu8, 0x03u8, 0x04u8]
}

/// The probe starts with `%PDF-`.
pub fn has_pdf_magic(probe: &Probe<'_>) -> (r: bool)
    ensures
        r == probe@.starts_with(pdf_magic()),
{
    let m: [u8; 5] = [0x25, 0x50, 0x44, 0x46, 0x2d];
    assert(m@ =~= pdf_magic());
    probe.starts_with(&m)
}

/// `%PDF-` stands somewhere in the probe.
pub fn holds_pdf_magic(probe: &Probe<'_>) -> (r: bool)
    ensures
        r == probe@.contains(pdf_magic()),
{
    let m: [u8; 5] = [0x25, 0x50, 0x44, 0x46, 0x2d];
    assert(m@ =~= pdf_magic());
    probe.contains(&m)
}

/// The probe starts as an OLE compound file does.
pub fn has_ole_magic(probe: &Probe<'_>) -> (r: bool)
    ensures
        r == probe@.starts_with(ole_magic()),
{
    let m: [u8; 8] = [0xD0, 0xCF, 0x11, 0xE0, 0xA1, 0xB1, 0x1A, 0xE1];
    assert(m@ =~= ole_magic());
    probe.starts_with(&m)
}

/// The probe starts as a zip container does.
pub fn has_zip_magic(probe: &Probe<'_>) -> (r: bool)
    ensures
        r == probe@.starts_with(zip_magic()),
{
    let m: [u8; 4] = [0x50, 0x4b, 0x03, 0x04];
    assert(m@ =~= zip_magic());
    probe.starts_with(&m)
}

/// What `infer` recognises: MIME type and extension.
pub uninterp spec fn inferred(head: Seq<u8>) -> Option<(Seq<char>, Seq<char>)>;

/// `infer::get`: the type recognised by its magic bytes, a function of the
/// bytes.
#[verifier::external_body]
fn infer_kind(head: &[u8]) -> (r: Option<(&'static str, &'static str)>)
    ensures
        r matches Some(k) ==> inferred(head@) == Some((k.0@, k.1@)),
        r is None ==> inferred(head@) is None,
{
    infer::get(head).map(|k| (k.mime_type(), k.extension()))
}

/// What `mime_guess` knows of an extension.
pub uninterp spec fn guessed_mime(ext: Seq<char>) -> Option<Seq<char>>;

/// `mime_guess::from_ext` and `MimeGuess::first_raw`: the first registered MIME
/// type of an extension, a function of the extension.
#[verifier::external_body]
fn guess_mime(ext: &str) -> (r: Option<&'static str>)
    ensures
        r matches Some(m) ==> guessed_mime(ext@) == Some(m@),
        r is None ==> guessed_mime(ext@) is None,
{
    mime_guess::from_ext(ext).first_raw()
}

/// The encoding that `chardetng` guesses.
pub uninterp spec fn guessed_charset(bytes: Seq<u8>) -> Seq<char>;

/// `chardetng::EncodingDetector`, fed the whole input and asked for its guess
/// without a top-level domain, UTF-8 allowed: a function of the bytes.
#[verifier::external_body]
fn guess_charset(bytes: &[u8]) -> (r: String)
    ensures
        r@ == guessed_charset(bytes@),
{
    let mut det = chardetng::EncodingDetector::new();
    det.feed(bytes, true);
    det.guess(None, true).name().to_owned()
}

pub open spec fn docx_type() -> (Seq<char>, Seq<char>) {
    ("application/vnd.openxmlformats-officedocument.wordprocessingml.document"@, "docx"@)
}

pub open spec fn pptx_type() -> (Seq<char>, Seq<char>) {
    ("application/vnd.openxmlformats-officedocument.presentationml.presentation"@, "pptx"@)
}

pub open spec fn xlsx_type() -> (Seq<char>, Seq<char>) {
    ("application/vnd.openxmlformats-officedocument.spreadsheetml.sheet"@, "xlsx"@)
}

/// What a member's name says about the container it is in.
pub enum Hint {
    Nothing,
    /// It may be an EPUB.
    Epub,
    Docx,
    Pptx,
    Xlsx,
}

pub open spec fn spec_hint(name: Seq<char>) -> Hint {
    if name == "[Content_Types].xml"@ {
        Hint::Nothing
    } else if name == "mimetype"@ || chars::starts_with(name, "META-INF/container.xml"@) {
        Hint::Epub
    } else if chars::starts_with(name, "word/"@) {
        Hint::Docx
    } else if chars::starts_with(name, "ppt/"@) {
        Hint::Pptx
    } else if chars::starts_with(name, "xl/"@) {
        Hint::Xlsx
    } else if chars::starts_with(name, "OEBPS/"@) {
        Hint::Epub
    } else {
        Hint::Nothing
    }
}

/// What the members from the `i`-th on say about a zip container; `epub` says
/// whether an earlier one looked like an EPUB's.
pub open spec fn zip_type_from(bytes: Seq<u8>, i: int, epub: bool) -> (Seq<char>, Seq<char>)
    decreases archive::archive_count(bytes) - i,
{
    if i >= archive::archive_count(bytes) {
        if epub {
            ("application/epub+zip"@, "epub"@)
        } else {
            ("application/zip"@, "zip"@)
        }
    } else {
        match archive::archive_member(bytes, i) {
            None => zip_type_from(bytes, i + 1, epub),
            Some(m) => match spec_hint(m.0) {
                Hint::Nothing => zip_type_from(bytes, i + 1, epub),
                Hint::Epub => zip_type_from(bytes, i + 1, true),
                Hint::Docx => docx_type(),
                Hint::Pptx => pptx_type(),
                Hint::Xlsx => xlsx_type(),
            },
        }
    }
}

/// The type of a zip container, by its members.
pub open spec fn zip_type(bytes: Seq<u8>) -> (Seq<char>, Seq<char>) {
    if archive::archive_fault(bytes) is Some {
        ("application/zip"@, "zip"@)
    } else {
        zip_type_from(bytes, 0, false)
    }
}

/// What the content alone says: MIME type and extension.
pub open spec fn spec_sniff(bytes: Seq<u8>) -> Option<(Seq<char>, Seq<char>)> {
    let p = stream_info::spec_probe(bytes);
    if p.starts_with(pdf_magic()) {
        Some(("application/pdf"@, "pdf"@))
    } else if p.starts_with(ole_magic()) {
        Some(("application/vnd.ms-outlook"@, "msg"@))
    } else if p.starts_with(zip_magic()) {
        Some(zip_type(bytes))
    } else {
        match inferred(p.head) {
            Some(k) => if is_media(k.0) {
                Some(k)
            } else {
                None
            },
            None => None,
        }
    }
}

/// The MIME type is one of pictures, sound or film.
pub open spec fn is_media(mime: Seq<char>) -> bool {
    chars::starts_with(mime, "image/"@) || chars::starts_with(mime, "audio/"@)
        || chars::starts_with(mime, "video/"@)
}

/// The MIME type that goes with an extension.
pub open spec fn spec_mime_for_extension(ext: Seq<char>) -> Option<Seq<char>> {
    if ext == "txt"@ || ext == "text"@ || ext == "log"@ {
        Some("text/plain"@)
    } else if ext == "md"@ || ext == "markdown"@ {
        Some("text/markdown"@)
    } else if ext == "csv"@ {
        Some("text/csv"@)
    } else if ext == "tsv"@ || ext == "tab"@ {
        Some("text/tab-separated-values"@)
    } else if ext == "json"@ {
        Some("application/json"@)
    } else if ext == "jsonl"@ || ext == "ndjson"@ {
        Some("application/x-ndjson"@)
    } else if ext == "ipynb"@ {
        Some("application/x-ipynb+json"@)
    } else if ext == "xml"@ {
        Some("application/xml"@)
    } else if ext == "rss"@ {
        Some("application/rss+xml"@)
    } else if ext == "atom"@ {
        Some("application/atom+xml"@)
    } else if ext == "html"@ || ext == "htm"@ || ext == "xhtml"@ {
        Some("text/html"@)
    } else if ext == "pdf"@ {
        Some("application/pdf"@)
    } else if ext == "docx"@ {
        Some("application/vnd.openxmlformats-officedocument.wordprocessingml.document"@)
    } else if ext == "pptx"@ {
        Some("application/vnd.openxmlformats-officedocument.presentationml.presentation"@)
    } else if ext == "xlsx"@ {
        Some("application/vnd.openxmlformats-officedocument.spreadsheetml.sheet"@)
    } else if ext == "xlsm"@ {
        Some("application/vnd.ms-excel.sheet.macroenabled.12"@)
    } else if ext == "xlsb"@ {
        Some("application/vnd.ms-excel.sheet.binary.macroenabled.12"@)
    } else if ext == "xls"@ {
        Some("application/vnd.ms-excel"@)
    } else if ext == "ods"@ {
        Some("application/vnd.oasis.opendocument.spreadsheet"@)
    } else if ext == "epub"@ {
        Some("application/epub+zip"@)
    } else if ext == "zip"@ {
        Some("application/zip"@)
    } else if ext == "msg"@ {
        Some("application/vnd.ms-outlook"@)
    } else if ext == "eml"@ {
        Some("message/rfc822"@)
    } else if ext == "jpg"@ || ext == "jpeg"@ {
        Some("image/jpeg"@)
    } else if ext == "png"@ {
        Some("image/png"@)
    } else if ext == "gif"@ {
        Some("image/gif"@)
    } else if ext == "webp"@ {
        Some("image/webp"@)
    } else if ext == "tif"@ || ext == "tiff"@ {
        Some("image/tiff"@)
    } else if ext == "heic"@ || ext == "heif"@ {
        Some("image/heif"@)
    } else if ext == "avif"@ {
        Some("image/avif"@)
    } else if ext == "mp3"@ {
        Some("audio/mpeg"@)
    } else if ext == "wav"@ {
        Some("audio/wav"@)
    } else if ext == "flac"@ {
        Some("audio/flac"@)
    } else if ext == "m4a"@ || ext == "aac"@ {
        Some("audio/mp4"@)
    } else if ext == "ogg"@ || ext == "opus"@ {
        Some("audio/ogg"@)
    } else {
        guessed_mime(ext)
    }
}

pub open spec fn is_container(m: Seq<char>) -> bool {
    m == "application/zip"@ || m == "application/x-zip-compressed"@
}

/// A declared type `a` and a sniffed type `b` do not contradict each other.
pub open spec fn spec_compatible(a: Seq<char>, b: Seq<char>) -> bool {
    ||| a == b
    ||| a == "application/octet-stream"@
    ||| b == "application/octet-stream"@
    ||| is_container(a) && chars::contains(b, "officedocument"@)
    ||| is_container(a) && b == "application/epub+zip"@
    ||| chars::starts_with(a, "text/"@) && chars::starts_with(b, "text/"@)
}

/// The encoding of a text: its byte-order mark, UTF-8 where the bytes are
/// valid, else a guess.
pub open spec fn spec_sniff_charset(b: Seq<u8>) -> Seq<char> {
    if bytes::spec_starts_with(b, seq![0xEFu8, 0xBBu8, 0xBFu8]) {
        "utf-8"@
    } else if bytes::spec_starts_with(b, seq![0xFFu8, 0xFEu8]) {
        "utf-16le"@
    } else if bytes::spec_starts_with(b, seq![0xFEu8, 0xFFu8]) {
        "utf-16be"@
    } else if vstd::utf8::valid_utf8(b) {
        "utf-8"@
    } else {
        chars::lower(guessed_charset(b))
    }
}

/// Two guesses say the same type.
pub open spec fn same_type(a: StreamInfoV, b: StreamInfoV) -> bool {
    a.mimetype == b.mimetype && a.extension == b.extension
}

/// A guess and what it rests on.
pub type Rung = (StreamInfoV, Signal);

/// Some guess in `s` says the same type as `g`.
pub open spec fn has_type_of(s: Seq<StreamInfoV>, g: StreamInfoV) -> bool {
    exists|i: int| 0 <= i < s.len() && same_type(#[trigger] s[i], g)
}

pub open spec fn infos(s: Seq<Rung>) -> Seq<StreamInfoV> {
    Seq::new(s.len(), |i: int| s[i].0)
}

pub open spec fn signals(s: Seq<Rung>) -> Seq<Signal> {
    Seq::new(s.len(), |i: int| s[i].1)
}

/// The guesses without those that repeat the type of an earlier one or say the
/// caller's own.
pub open spec fn ladder(s: Seq<Rung>, base: StreamInfoV) -> Seq<Rung>
    decreases s.len(),
{
    if s.len() == 0 {
        seq![]
    } else {
        let t = ladder(s.drop_last(), base);
        if same_type(s.last().0, base) || has_type_of(infos(t), s.last().0) {
            t
        } else {
            t.push(s.last())
        }
    }
}

pub open spec fn typed(base: StreamInfoV, mime: Seq<char>, ext: Seq<char>) -> StreamInfoV {
    StreamInfoV { mimetype: Some(mime), extension: Some(ext), ..base }
}

/// The guess that the content gives.
pub open spec fn content_guess(
    sniffed: Option<(Seq<char>, Seq<char>)>,
    base: StreamInfoV,
) -> Seq<StreamInfoV> {
    match sniffed {
        Some(k) => seq![typed(base, k.0, k.1)],
        None => seq![],
    }
}

/// The guess that the extension gives.
pub open spec fn extension_guess(base: StreamInfoV) -> Seq<StreamInfoV> {
    match base.extension {
        Some(x) => {
            let e = stream_info::spec_normalize_ext(x);
            match spec_mime_for_extension(e) {
                Some(m) => seq![typed(base, m, e)],
                None => seq![],
            }
        },
        None => seq![],
    }
}

/// Text in that encoding, where the bytes look like text.
pub open spec fn text_guess(charset: Option<Seq<char>>, base: StreamInfoV) -> Seq<StreamInfoV> {
    match charset {
        Some(c) => seq![
            StreamInfoV {
                mimetype: match base.mimetype {
                    Some(m) => Some(m),
                    None => Some("text/plain"@),
                },
                charset: Some(c),
                ..base
            },
        ],
        None => seq![],
    }
}

pub open spec fn resting_on(s: Seq<StreamInfoV>, signal: Signal) -> Seq<Rung> {
    Seq::new(s.len(), |i: int| (s[i], signal))
}

/// The guesses besides the caller's own view, best first.
pub open spec fn sources(
    sniffed: Option<(Seq<char>, Seq<char>)>,
    charset: Option<Seq<char>>,
    base: StreamInfoV,
) -> Seq<Rung> {
    resting_on(content_guess(sniffed, base), Signal::Content) + resting_on(
        extension_guess(base),
        Signal::Extension,
    ) + resting_on(text_guess(charset, base), Signal::Absent)
}

/// What the caller's own view rests on: the content or the extension where
/// they say the same.
pub open spec fn base_signal(
    sniffed: Option<(Seq<char>, Seq<char>)>,
    base: StreamInfoV,
) -> Signal {
    if has_type_of(content_guess(sniffed, base), base) {
        Signal::Content
    } else if has_type_of(extension_guess(base), base) {
        Signal::Extension
    } else if base.mimetype is Some || base.extension is Some {
        Signal::Declared
    } else {
        Signal::Absent
    }
}

/// Every guess with what it rests on; the last is the caller's own view.
pub open spec fn rungs(
    sniffed: Option<(Seq<char>, Seq<char>)>,
    charset: Option<Seq<char>>,
    base: StreamInfoV,
) -> Seq<Rung> {
    ladder(sources(sniffed, charset, base), base).push((base, base_signal(sniffed, base)))
}

/// The type that the caller claimed, in either way.
pub open spec fn claimed(base: StreamInfoV) -> Option<Seq<char>> {
    match (base.mimetype, base.extension) {
        (Some(m), _) => Some(m),
        (None, Some(e)) => spec_mime_for_extension(e),
        (None, None) => None,
    }
}

pub open spec fn spec_mismatch(
    sniffed: Option<(Seq<char>, Seq<char>)>,
    base: StreamInfoV,
) -> Option<Seq<char>> {
    match (sniffed, claimed(base)) {
        (Some(k), Some(d)) => if d != k.0 && !spec_compatible(d, k.0) {
            Some("declared "@ + d + ", content looks like "@ + k.0)
        } else {
            None
        },
        _ => None,
    }
}

/// What the evidence comes to: the type that the content shows, the encoding
/// where it looks like text, and the caller's own view.
pub open spec fn spec_weigh(
    sniffed: Option<(Seq<char>, Seq<char>)>,
    charset: Option<Seq<char>>,
    base: StreamInfoV,
) -> DetectionV {
    let rs = rungs(sniffed, charset, base);
    DetectionV {
        guesses: infos(rs),
        signals: signals(rs),
        mismatch: spec_mismatch(sniffed, base),
        leading_signal: rs[0].1,
    }
}

/// The encoding of an input that looks like text: the stated one, else the one
/// that the bytes suggest.
pub open spec fn text_charset(bytes: Seq<u8>, base: StreamInfoV) -> Option<Seq<char>> {
    if stream_info::spec_probe(bytes).looks_textual() {
        match base.charset {
            Some(c) => Some(c),
            None => Some(spec_sniff_charset(bytes)),
        }
    } else {
        None
    }
}

pub open spec fn spec_detect(bytes: Seq<u8>, base: StreamInfoV) -> DetectionV {
    spec_weigh(spec_sniff(bytes), text_charset(bytes, base), base)
}

proof fn lemma_ladder(s: Seq<Rung>, base: StreamInfoV)
    ensures
        forall|i: int, j: int|
            0 <= i < j < ladder(s, base).len() ==> !same_type(
                (#[trigger] ladder(s, base)[i]).0,
                (#[trigger] ladder(s, base)[j]).0,
            ),
        forall|i: int|
            0 <= i < ladder(s, base).len() ==> !same_type((#[trigger] ladder(s, base)[i]).0, base),
        forall|i: int|
            0 <= i < s.len() ==> same_type((#[trigger] s[i]).0, base) || has_type_of(
                infos(ladder(s, base)),
                s[i].0,
            ),
        s.len() > 0 && !same_type(s[0].0, base) ==> ladder(s, base).len() > 0 && ladder(s, base)[0]
            == s[0],
    decreases s.len(),
{
    if s.len() > 0 {
        let d = s.drop_last();
        lemma_ladder(d, base);
        let t = ladder(d, base);
        let u = ladder(s, base);
        if d.len() > 0 {
            assert(d[0] == s[0]);
        }
        assert forall|i: int| 0 <= i < s.len() implies same_type((#[trigger] s[i]).0, base)
            || has_type_of(infos(u), s[i].0) by {
            if i < d.len() {
                assert(d[i] == s[i]);
                if !same_type(d[i].0, base) {
                    let k = choose|k: int|
                        0 <= k < infos(t).len() && same_type(#[trigger] infos(t)[k], d[i].0);
                    assert(infos(u)[k] == infos(t)[k]);
                }
            } else if !same_type(s.last().0, base) && !has_type_of(infos(t), s.last().0) {
                assert(same_type(infos(u)[u.len() - 1], s[i].0));
            }
        }
        assert forall|i: int, j: int| 0 <= i < j < u.len() implies !same_type(
            (#[trigger] u[i]).0,
            (#[trigger] u[j]).0,
        ) by {
            assert(u[i] == t[i]);
            if j < t.len() {
                assert(u[j] == t[j]);
            } else {
                assert(infos(t)[i] == t[i].0);
            }
        }
    }
}

/// No type is tried twice, the caller's own view is tried last, and no evidence
/// is lost: every source's type is among the guesses.
pub proof fn guesses_are_distinct_and_complete(bytes: Seq<u8>, base: StreamInfoV)
    ensures
        ({
            let d = spec_detect(bytes, base);
            let from = sources(spec_sniff(bytes), text_charset(bytes, base), base);
            &&& d.guesses.len() > 0
            &&& d.guesses.last() == base
            &&& d.signals.len() == d.guesses.len()
            &&& forall|i: int, j: int|
                0 <= i < j < d.guesses.len() ==> !same_type(
                    #[trigger] d.guesses[i],
                    #[trigger] d.guesses[j],
                )
            &&& forall|i: int|
                0 <= i < from.len() ==> has_type_of(d.guesses, (#[trigger] from[i]).0)
        }),
{
    let from = sources(spec_sniff(bytes), text_charset(bytes, base), base);
    let t = ladder(from, base);
    let d = spec_detect(bytes, base);
    lemma_ladder(from, base);
    assert(d.guesses.last() == base);
    assert forall|i: int, j: int| 0 <= i < j < d.guesses.len() implies !same_type(
        #[trigger] d.guesses[i],
        #[trigger] d.guesses[j],
    ) by {
        assert(d.guesses[i] == t[i].0);
        if j < t.len() {
            assert(d.guesses[j] == t[j].0);
        }
    }
    assert forall|i: int| 0 <= i < from.len() implies has_type_of(
        d.guesses,
        (#[trigger] from[i]).0,
    ) by {
        if same_type(from[i].0, base) {
            assert(same_type(d.guesses[t.len() as int], from[i].0));
        } else {
            let k = choose|k: int|
                0 <= k < infos(t).len() && same_type(#[trigger] infos(t)[k], from[i].0);
            assert(d.guesses[k] == infos(t)[k]);
        }
    }
}

/// Content outranks the extension, and the extension outranks what the caller
/// declared: the first guess is the content's where the bytes are recognised,
/// else the extension's where it is known. Where that guess is the caller's own
/// view, the view rests on it.
pub proof fn content_outranks_extension_outranks_declared(bytes: Seq<u8>, base: StreamInfoV)
    ensures
        ({
            let d = spec_detect(bytes, base);
            &&& spec_sniff(bytes) matches Some(k) ==> {
                let g = typed(base, k.0, k.1);
                if same_type(g, base) {
                    d.signals.last() is Content
                } else {
                    d.guesses[0] == g && d.leading_signal is Content
                }
            }
            &&& spec_sniff(bytes) is None && extension_guess(base).len() > 0 ==> {
                let g = extension_guess(base)[0];
                if same_type(g, base) {
                    d.signals.last() is Extension
                } else {
                    d.guesses[0] == g && d.leading_signal is Extension
                }
            }
        }),
{
    let from = sources(spec_sniff(bytes), text_charset(bytes, base), base);
    let d = spec_detect(bytes, base);
    lemma_ladder(from, base);
    if let Some(k) = spec_sniff(bytes) {
        let g = typed(base, k.0, k.1);
        assert(content_guess(spec_sniff(bytes), base)[0] == g);
        assert(from[0] == (g, Signal::Content));
    } else if extension_guess(base).len() > 0 {
        assert(from[0] == (extension_guess(base)[0], Signal::Extension));
    }
}


/// What a member's name says about the container it is in.
pub fn hint(name: &str) -> (r: Hint)
    ensures
        r == spec_hint(name@),
{
    if text::eq(name, "[Content_Types].xml") {
        Hint::Nothing
    } else if text::eq(name, "mimetype") || text::starts_with(name, "META-INF/container.xml") {
        Hint::Epub
    } else if text::starts_with(name, "word/") {
        Hint::Docx
    } else if text::starts_with(name, "ppt/") {
        Hint::Pptx
    } else if text::starts_with(name, "xl/") {
        Hint::Xlsx
    } else if text::starts_with(name, "OEBPS/") {
        Hint::Epub
    } else {
        Hint::Nothing
    }
}

fn sniff_zip(bytes: &[u8]) -> (r: (&'static str, &'static str))
    ensures
        (r.0@, r.1@) == zip_type(bytes@),
{
    let mut zip = match archive::open(bytes) {
        Ok(z) => z,
        Err(_) => {
            return ("application/zip", "zip");
        },
    };
    let mut epub: bool = false;
    let mut i: usize = 0;
    let n: usize = archive::count(&zip);
    while i < n
        invariant
            i <= n,
            n == archive::archive_count(bytes@),
            archive::archive_bytes(zip) == bytes@,
            archive::archive_fault(bytes@) is None,
            zip_type_from(bytes@, 0, false) == zip_type_from(bytes@, i as int, epub),
        decreases n - i,
    {
        if let Some(m) = archive::member(&mut zip, i) {
            match hint(&m.0) {
                Hint::Nothing => {},
                Hint::Epub => {
                    epub = true;
                },
                Hint::Docx => {
                    return (
                        "application/vnd.openxmlformats-officedocument.wordprocessingml.document",
                        "docx",
                    );
                },
                Hint::Pptx => {
                    return (
                        "application/vnd.openxmlformats-officedocument.presentationml.presentation",
                        "pptx",
                    );
                },
                Hint::Xlsx => {
                    return (
                        "application/vnd.openxmlformats-officedocument.spreadsheetml.sheet",
                        "xlsx",
                    );
                },
            }
        }
        i += 1;
    }
    if epub {
        ("application/epub+zip", "epub")
    } else {
        ("application/zip", "zip")
    }
}

fn sniff(bytes: &[u8], probe: &Probe<'_>) -> (r: Option<(&'static str, &'static str)>)
    requires
        probe@ == stream_info::spec_probe(bytes@),
    ensures
        r matches Some(k) ==> spec_sniff(bytes@) == Some((k.0@, k.1@)),
        r is None ==> spec_sniff(bytes@) is None,
{
    if has_pdf_magic(probe) {
        return Some(("application/pdf", "pdf"));
    }
    if has_ole_magic(probe) {
        return Some(("application/vnd.ms-outlook", "msg"));
    }
    if has_zip_magic(probe) {
        return Some(sniff_zip(bytes));
    }
    if let Some(k) = infer_kind(probe.head()) {
        if text::starts_with(k.0, "image/") || text::starts_with(k.0, "audio/")
            || text::starts_with(k.0, "video/") {
            return Some(k);
        }
    }
    None
}

/// The MIME type that goes with an extension.
#[must_use]
pub fn mime_for_extension(ext: &str) -> (r: Option<&'static str>)
    ensures
        r matches Some(m) ==> spec_mime_for_extension(ext@) == Some(m@),
        r is None ==> spec_mime_for_extension(ext@) is None,
{
    if text::eq(ext, "txt") || text::eq(ext, "text") || text::eq(ext, "log") {
        Some("text/plain")
    } else if text::eq(ext, "md") || text::eq(ext, "markdown") {
        Some("text/markdown")
    } else if text::eq(ext, "csv") {
        Some("text/csv")
    } else if text::eq(ext, "tsv") || text::eq(ext, "tab") {
        Some("text/tab-separated-values")
    } else if text::eq(ext, "json") {
        Some("application/json")
    } else if text::eq(ext, "jsonl") || text::eq(ext, "ndjson") {
        Some("application/x-ndjson")
    } else if text::eq(ext, "ipynb") {
        Some("application/x-ipynb+json")
    } else if text::eq(ext, "xml") {
        Some("application/xml")
    } else if text::eq(ext, "rss") {
        Some("application/rss+xml")
    } else if text::eq(ext, "atom") {
        Some("application/atom+xml")
    } else if text::eq(ext, "html") || text::eq(ext, "htm") || text::eq(ext, "xhtml") {
        Some("text/html")
    } else if text::eq(ext, "pdf") {
        Some("application/pdf")
    } else if text::eq(ext, "docx") {
        Some("application/vnd.openxmlformats-officedocument.wordprocessingml.document")
    } else if text::eq(ext, "pptx") {
        Some("application/vnd.openxmlformats-officedocument.presentationml.presentation")
    } else if text::eq(ext, "xlsx") {
        Some("application/vnd.openxmlformats-officedocument.spreadsheetml.sheet")
    } else if text::eq(ext, "xlsm") {
        Some("application/vnd.ms-excel.sheet.macroenabled.12")
    } else if text::eq(ext, "xlsb") {
        Some("application/vnd.ms-excel.sheet.binary.macroenabled.12")
    } else if text::eq(ext, "xls") {
        Some("application/vnd.ms-excel")
    } else if text::eq(ext, "ods") {
        Some("application/vnd.oasis.opendocument.spreadsheet")
    } else if text::eq(ext, "epub") {
        Some("application/epub+zip")
    } else if text::eq(ext, "zip") {
        Some("application/zip")
    } else if text::eq(ext, "msg") {
        Some("application/vnd.ms-outlook")
    } else if text::eq(ext, "eml") {
        Some("message/rfc822")
    } else if text::eq(ext, "jpg") || text::eq(ext, "jpeg") {
        Some("image/jpeg")
    } else if text::eq(ext, "png") {
        Some("image/png")
    } else if text::eq(ext, "gif") {
        Some("image/gif")
    } else if text::eq(ext, "webp") {
        Some("image/webp")
    } else if text::eq(ext, "tif") || text::eq(ext, "tiff") {
        Some("image/tiff")
    } else if text::eq(ext, "heic") || text::eq(ext, "heif") {
        Some("image/heif")
    } else if text::eq(ext, "avif") {
        Some("image/avif")
    } else if text::eq(ext, "mp3") {
        Some("audio/mpeg")
    } else if text::eq(ext, "wav") {
        Some("audio/wav")
    } else if text::eq(ext, "flac") {
        Some("audio/flac")
    } else if text::eq(ext, "m4a") || text::eq(ext, "aac") {
        Some("audio/mp4")
    } else if text::eq(ext, "ogg") || text::eq(ext, "opus") {
        Some("audio/ogg")
    } else {
        guess_mime(ext)
    }
}

/// A declared type and a sniffed type do not contradict each other.
fn compatible(a: &str, b: &str) -> (r: bool)
    ensures
        r == spec_compatible(a@, b@),
{
    let container: bool = text::eq(a, "application/zip") || text::eq(
        a,
        "application/x-zip-compressed",
    );
    text::eq(a, b) || text::eq(a, "application/octet-stream") || text::eq(
        b,
        "application/octet-stream",
    ) || (container && text::contains(b, "officedocument")) || (container && text::eq(
        b,
        "application/epub+zip",
    )) || (text::starts_with(a, "text/") && text::starts_with(b, "text/"))
}

/// The encoding of a text.
#[must_use]
pub fn sniff_charset(b: &[u8]) -> (r: String)
    ensures
        r@ == spec_sniff_charset(b@),
{
    let m8: [u8; 3] = [0xEF, 0xBB, 0xBF];
    let mle: [u8; 2] = [0xFF, 0xFE];
    let mbe: [u8; 2] = [0xFE, 0xFF];
    assert(m8@ =~= seq![0xEFu8, 0xBBu8, 0xBFu8]);
    assert(mle@ =~= seq![0xFFu8, 0xFEu8]);
    assert(mbe@ =~= seq![0xFEu8, 0xFFu8]);
    if bytes::starts_with(b, &m8) {
        return "utf-8".to_owned();
    }
    if bytes::starts_with(b, &mle) {
        return "utf-16le".to_owned();
    }
    if bytes::starts_with(b, &mbe) {
        return "utf-16be".to_owned();
    }
    if bytes::is_utf8(b) {
        return "utf-8".to_owned();
    }
    let g = guess_charset(b);
    text::lower(&g)
}

pub open spec fn rungs_view(v: Seq<(StreamInfo, Signal)>) -> Seq<Rung> {
    Seq::new(v.len(), |i: int| (v[i].0@, v[i].1))
}

fn types_agree(a: &StreamInfo, b: &StreamInfo) -> (r: bool)
    ensures
        r == same_type(a@, b@),
{
    text::opt_eq(&a.mimetype, &b.mimetype) && text::opt_eq(&a.extension, &b.extension)
}

/// Adds a guess, unless its type is the caller's own or is there already.
fn add_rung(v: &mut Vec<(StreamInfo, Signal)>, from: Ghost<Seq<Rung>>, x: StreamInfo, signal: Signal, base: &StreamInfo)
    requires
        rungs_view(old(v)@) == ladder(from@, base@),
    ensures
        rungs_view(final(v)@) == ladder(from@.push((x@, signal)), base@),
{
    let ghost t = rungs_view(v@);
    let mut seen: bool = false;
    let mut k: usize = 0;
    while k < v.len()
        invariant
            k <= v@.len(),
            t == rungs_view(v@),
            seen == exists|m: int| 0 <= m < k && same_type(#[trigger] infos(t)[m], x@),
        decreases v@.len() - k,
    {
        if types_agree(&v[k].0, &x) {
            assert(same_type(infos(t)[k as int], x@));
            seen = true;
        }
        k += 1;
    }
    proof {
        let all = from@.push((x@, signal));
        assert(all.drop_last() =~= from@);
        assert(seen == has_type_of(infos(t), x@));
    }
    if !seen && !types_agree(&x, base) {
        let ghost before = v@;
        let ghost y = (x@, signal);
        v.push((x, signal));
        assert(rungs_view(v@) =~= rungs_view(before).push(y));
    }
}

pub open spec fn sniff_view(k: Option<(&'static str, &'static str)>) -> Option<
    (Seq<char>, Seq<char>),
> {
    match k {
        Some(p) => Some((p.0@, p.1@)),
        None => None,
    }
}

/// Weighs the evidence: the type that the content shows, the encoding where it
/// looks like text, and the caller's own view.
pub fn weigh(
    sniffed: Option<(&'static str, &'static str)>,
    charset: Option<String>,
    base: &StreamInfo,
) -> (r: Detection)
    ensures
        r@ == spec_weigh(sniff_view(sniffed), chars::opt(charset), base@),
{
    let mut rs: Vec<(StreamInfo, Signal)> = Vec::new();
    let mut mismatch: Option<String> = None;
    let mut own = if base.mimetype.is_some() || base.extension.is_some() {
        Signal::Declared
    } else {
        Signal::Absent
    };
    let ghost v = sniff_view(sniffed);
    let ghost c = chars::opt(charset);
    let ghost mut from = Seq::<Rung>::empty();
    assert(rungs_view(rs@) =~= ladder(from, base@));
    if let Some(x) = &base.extension {
        let ext = normalize_ext(x);
        if let Some(mime) = mime_for_extension(&ext) {
            let mut si = base.clone();
            si.mimetype = Some(mime.to_owned());
            si.extension = Some(ext);
            assert(extension_guess(base@) =~= seq![si@]);
            if types_agree(&si, base) {
                assert(same_type(extension_guess(base@)[0], base@));
                own = Signal::Extension;
            }
        }
    }
    assert(own == if has_type_of(extension_guess(base@), base@) {
        Signal::Extension
    } else {
        if base@.mimetype is Some || base@.extension is Some {
            Signal::Declared
        } else {
            Signal::Absent
        }
    });
    if let Some(k) = sniffed {
        let mut si = base.clone();
        si.mimetype = Some(k.0.to_owned());
        si.extension = Some(k.1.to_owned());
        let declared: Option<String> = match (&base.mimetype, &base.extension) {
            (Some(m), _) => Some(m.clone()),
            (None, Some(e)) => match mime_for_extension(e) {
                Some(m) => Some(m.to_owned()),
                None => None,
            },
            (None, None) => None,
        };
        assert(chars::opt(declared) == claimed(base@));
        if let Some(d) = declared {
            if !text::eq(&d, k.0) && !compatible(&d, k.0) {
                let mut m = text::cat3("declared ", &d, ", content looks like ");
                m.append(k.0);
                mismatch = Some(m);
            }
        }
        assert(si@ =~= typed(base@, k.0@, k.1@));
        assert(content_guess(v, base@) =~= seq![si@]);
        if types_agree(&si, base) {
            assert(same_type(content_guess(v, base@)[0], base@));
            own = Signal::Content;
        }
        let ghost rung = (si@, Signal::Content);
        add_rung(&mut rs, Ghost(from), si, Signal::Content, base);
        proof {
            from = from.push(rung);
        }
    }
    let ghost g1 = resting_on(content_guess(v, base@), Signal::Content);
    assert(from =~= g1);
    assert(own == base_signal(v, base@));
    if let Some(x) = &base.extension {
        let ext = normalize_ext(x);
        if let Some(mime) = mime_for_extension(&ext) {
            let mut si = base.clone();
            si.mimetype = Some(mime.to_owned());
            si.extension = Some(ext);
            let ghost rung = (si@, Signal::Extension);
            add_rung(&mut rs, Ghost(from), si, Signal::Extension, base);
            proof {
                from = from.push(rung);
            }
        }
    }
    let ghost g2 = g1 + resting_on(extension_guess(base@), Signal::Extension);
    assert(from =~= g2);
    if let Some(charset) = charset {
        let mut si = base.clone();
        if si.mimetype.is_none() {
            si.mimetype = Some("text/plain".to_owned());
        }
        si.charset = Some(charset);
        assert(text_guess(c, base@) =~= seq![si@]);
        let ghost rung = (si@, Signal::Absent);
        add_rung(&mut rs, Ghost(from), si, Signal::Absent, base);
        proof {
            from = from.push(rung);
        }
    }
    assert(from =~= g2 + resting_on(text_guess(c, base@), Signal::Absent));
    assert(from == sources(v, c, base@));
    let ghost before = rs@;
    rs.push((base.clone(), own));
    assert(rungs_view(rs@) =~= rungs_view(before).push((base@, own)));
    let leading_signal = rs[0].1;
    let ghost all = rungs_view(rs@);
    let mut guesses: Vec<StreamInfo> = Vec::new();
    let mut signals_of: Vec<Signal> = Vec::new();
    let mut i: usize = 0;
    while i < rs.len()
        invariant
            i <= rs@.len(),
            all == rungs_view(rs@),
            guesses@.len() == i,
            signals_of@.len() == i,
            forall|k: int| 0 <= k < i ==> (#[trigger] guesses@[k])@ == all[k].0,
            forall|k: int| 0 <= k < i ==> #[trigger] signals_of@[k] == all[k].1,
        decreases rs@.len() - i,
    {
        guesses.push(rs[i].0.clone());
        signals_of.push(rs[i].1);
        i += 1;
    }
    assert(stream_info::infos_view(guesses@) =~= infos(all));
    assert(signals_of@ =~= signals(all));
    Detection { guesses, signals: signals_of, mismatch, leading_signal }
}

/// Detects what an input is.
#[must_use]
pub fn detect(bytes: &[u8], base: &StreamInfo) -> (r: Detection)
    ensures
        r@ == spec_detect(bytes@, base@),
{
    let probe = Probe::new(bytes);
    let sniffed = sniff(bytes, &probe);
    let charset: Option<String> = if probe.looks_textual() {
        match &base.charset {
            Some(c) => Some(c.clone()),
            None => Some(sniff_charset(bytes)),
        }
    } else {
        None
    };
    weigh(sniffed, charset, base)
}

} // verus!

//! What becomes of inputs as a whole: how they are told apart, named and refused.

use vstd::prelude::*;
use crate::archive;
use crate::chars;
use crate::converters;
use crate::converters::builtin;
use crate::converters::builtin::Kind;
use crate::converters::epub;
use crate::converters::epub::PackageV;
use crate::converters::extract::ExtractedV;
use crate::converters::json;
use crate::converters::ooxml;
use crate::converters::ooxml::SlideV;
use crate::converters::pdf;
use crate::converters::pdf::{PagesV, PdfFileV};
use crate::converters::sheet;
use crate::cx::CxV;
use crate::detect;
use crate::error::ErrorV;
use crate::fidelity::properties;
use crate::ir;
use crate::ir::DocumentV;
use crate::markdown;
use crate::stream_info;
use crate::stream_info::{ProbeV, StreamInfoV};

verus! {

proof fn lemma_extensions()
    ensures
        detect::spec_mime_for_extension("pdf"@) == Some("application/pdf"@),
        detect::spec_mime_for_extension("docx"@) == Some(detect::docx_type().0),
        detect::spec_mime_for_extension("pptx"@) == Some(detect::pptx_type().0),
        detect::spec_mime_for_extension("xlsx"@) == Some(detect::xlsx_type().0),
        detect::spec_mime_for_extension("epub"@) == Some("application/epub+zip"@),
        detect::spec_mime_for_extension("zip"@) == Some("application/zip"@),
        detect::spec_mime_for_extension("msg"@) == Some("application/vnd.ms-outlook"@),
        detect::spec_mime_for_extension("csv"@) == Some("text/csv"@),
        detect::spec_mime_for_extension("tsv"@) == Some("text/tab-separated-values"@),
        detect::spec_mime_for_extension("tab"@) == Some("text/tab-separated-values"@),
        detect::spec_mime_for_extension("json"@) == Some("application/json"@),
        detect::spec_mime_for_extension("jsonl"@) == Some("application/x-ndjson"@),
        detect::spec_mime_for_extension("ndjson"@) == Some("application/x-ndjson"@),
        detect::spec_mime_for_extension("ipynb"@) == Some("application/x-ipynb+json"@),
        detect::spec_mime_for_extension("xml"@) == Some("application/xml"@),
        detect::spec_mime_for_extension("rss"@) == Some("application/rss+xml"@),
        detect::spec_mime_for_extension("atom"@) == Some("application/atom+xml"@),
        detect::spec_mime_for_extension("html"@) == Some("text/html"@),
        detect::spec_mime_for_extension("htm"@) == Some("text/html"@),
        detect::spec_mime_for_extension("xls"@) == Some("application/vnd.ms-excel"@),
        detect::spec_mime_for_extension("md"@) == Some("text/markdown"@),
        detect::spec_mime_for_extension("txt"@) == Some("text/plain"@),
        detect::spec_mime_for_extension("png"@) == Some("image/png"@),
        detect::spec_mime_for_extension("jpg"@) == Some("image/jpeg"@),
        detect::spec_mime_for_extension("gif"@) == Some("image/gif"@),
        detect::spec_mime_for_extension("mp3"@) == Some("audio/mpeg"@),
        detect::spec_mime_for_extension("wav"@) == Some("audio/wav"@),
        detect::spec_mime_for_extension("flac"@) == Some("audio/flac"@),
        detect::spec_mime_for_extension("ods"@) == Some(
            "application/vnd.oasis.opendocument.spreadsheet"@,
        ),
{
    reveal_strlit("txt");
    reveal_strlit("text");
    reveal_strlit("log");
    reveal_strlit("md");
    reveal_strlit("markdown");
    reveal_strlit("csv");
    reveal_strlit("tsv");
    reveal_strlit("tab");
    reveal_strlit("json");
    reveal_strlit("jsonl");
    reveal_strlit("ndjson");
    reveal_strlit("ipynb");
    reveal_strlit("xml");
    reveal_strlit("rss");
    reveal_strlit("atom");
    reveal_strlit("html");
    reveal_strlit("htm");
    reveal_strlit("xhtml");
    reveal_strlit("pdf");
    reveal_strlit("docx");
    reveal_strlit("pptx");
    reveal_strlit("xlsx");
    reveal_strlit("xlsm");
    reveal_strlit("xlsb");
    reveal_strlit("xls");
    reveal_strlit("ods");
    reveal_strlit("epub");
    reveal_strlit("zip");
    reveal_strlit("msg");
    reveal_strlit("eml");
    reveal_strlit("jpg");
    reveal_strlit("jpeg");
    reveal_strlit("png");
    reveal_strlit("gif");
    reveal_strlit("webp");
    reveal_strlit("tif");
    reveal_strlit("tiff");
    reveal_strlit("heic");
    reveal_strlit("heif");
    reveal_strlit("avif");
    reveal_strlit("mp3");
    reveal_strlit("wav");
    reveal_strlit("flac");
    reveal_strlit("m4a");
    reveal_strlit("aac");
    reveal_strlit("ogg");
    reveal_strlit("opus");
    assert("md"@.len() == 2);
    assert("txt"@.len() == 3 && "txt"@[0] == 't' && "txt"@[1] == 'x' && "txt"@[2] == 't');
    assert("log"@.len() == 3 && "log"@[0] == 'l' && "log"@[1] == 'o' && "log"@[2] == 'g');
    assert("csv"@.len() == 3 && "csv"@[0] == 'c' && "csv"@[1] == 's' && "csv"@[2] == 'v');
    assert("tsv"@.len() == 3 && "tsv"@[0] == 't' && "tsv"@[1] == 's' && "tsv"@[2] == 'v');
    assert("tab"@.len() == 3 && "tab"@[0] == 't' && "tab"@[1] == 'a' && "tab"@[2] == 'b');
    assert("xml"@.len() == 3 && "xml"@[0] == 'x' && "xml"@[1] == 'm' && "xml"@[2] == 'l');
    assert("rss"@.len() == 3 && "rss"@[0] == 'r' && "rss"@[1] == 's' && "rss"@[2] == 's');
    assert("htm"@.len() == 3 && "htm"@[0] == 'h' && "htm"@[1] == 't' && "htm"@[2] == 'm');
    assert("pdf"@.len() == 3 && "pdf"@[0] == 'p' && "pdf"@[1] == 'd' && "pdf"@[2] == 'f');
    assert("xls"@.len() == 3 && "xls"@[0] == 'x' && "xls"@[1] == 'l' && "xls"@[2] == 's');
    assert("ods"@.len() == 3 && "ods"@[0] == 'o' && "ods"@[1] == 'd' && "ods"@[2] == 's');
    assert("zip"@.len() == 3 && "zip"@[0] == 'z' && "zip"@[1] == 'i' && "zip"@[2] == 'p');
    assert("msg"@.len() == 3 && "msg"@[0] == 'm' && "msg"@[1] == 's' && "msg"@[2] == 'g');
    assert("eml"@.len() == 3 && "eml"@[0] == 'e' && "eml"@[1] == 'm' && "eml"@[2] == 'l');
    assert("jpg"@.len() == 3 && "jpg"@[0] == 'j' && "jpg"@[1] == 'p' && "jpg"@[2] == 'g');
    assert("png"@.len() == 3 && "png"@[0] == 'p' && "png"@[1] == 'n' && "png"@[2] == 'g');
    assert("gif"@.len() == 3 && "gif"@[0] == 'g' && "gif"@[1] == 'i' && "gif"@[2] == 'f');
    assert("tif"@.len() == 3 && "tif"@[0] == 't' && "tif"@[1] == 'i' && "tif"@[2] == 'f');
    assert("mp3"@.len() == 3 && "mp3"@[0] == 'm' && "mp3"@[1] == 'p' && "mp3"@[2] == '3');
    assert("wav"@.len() == 3 && "wav"@[0] == 'w' && "wav"@[1] == 'a' && "wav"@[2] == 'v');
    assert("m4a"@.len() == 3 && "m4a"@[0] == 'm' && "m4a"@[1] == '4' && "m4a"@[2] == 'a');
    assert("aac"@.len() == 3 && "aac"@[0] == 'a' && "aac"@[1] == 'a' && "aac"@[2] == 'c');
    assert("ogg"@.len() == 3 && "ogg"@[0] == 'o' && "ogg"@[1] == 'g' && "ogg"@[2] == 'g');
    assert("text"@.len() == 4 && "text"@[0] == 't' && "text"@[1] == 'e' && "text"@[2] == 'x' && "text"@[3] == 't');
    assert("json"@.len() == 4 && "json"@[0] == 'j' && "json"@[1] == 's' && "json"@[2] == 'o' && "json"@[3] == 'n');
    assert("atom"@.len() == 4 && "atom"@[0] == 'a' && "atom"@[1] == 't' && "atom"@[2] == 'o' && "atom"@[3] == 'm');
    assert("html"@.len() == 4 && "html"@[0] == 'h' && "html"@[1] == 't' && "html"@[2] == 'm' && "html"@[3] == 'l');
    assert("docx"@.len() == 4 && "docx"@[0] == 'd' && "docx"@[1] == 'o' && "docx"@[2] == 'c' && "docx"@[3] == 'x');
    assert("pptx"@.len() == 4 && "pptx"@[0] == 'p' && "pptx"@[1] == 'p' && "pptx"@[2] == 't' && "pptx"@[3] == 'x');
    assert("xlsx"@.len() == 4 && "xlsx"@[0] == 'x' && "xlsx"@[1] == 'l' && "xlsx"@[2] == 's' && "xlsx"@[3] == 'x');
    assert("xlsm"@.len() == 4 && "xlsm"@[0] == 'x' && "xlsm"@[1] == 'l' && "xlsm"@[2] == 's' && "xlsm"@[3] == 'm');
    assert("xlsb"@.len() == 4 && "xlsb"@[0] == 'x' && "xlsb"@[1] == 'l' && "xlsb"@[2] == 's' && "xlsb"@[3] == 'b');
    assert("epub"@.len() == 4 && "epub"@[0] == 'e' && "epub"@[1] == 'p' && "epub"@[2] == 'u' && "epub"@[3] == 'b');
    assert("jpeg"@.len() == 4 && "jpeg"@[0] == 'j' && "jpeg"@[1] == 'p' && "jpeg"@[2] == 'e' && "jpeg"@[3] == 'g');
    assert("webp"@.len() == 4 && "webp"@[0] == 'w' && "webp"@[1] == 'e' && "webp"@[2] == 'b' && "webp"@[3] == 'p');
    assert("tiff"@.len() == 4 && "tiff"@[0] == 't' && "tiff"@[1] == 'i' && "tiff"@[2] == 'f' && "tiff"@[3] == 'f');
    assert("heic"@.len() == 4 && "heic"@[0] == 'h' && "heic"@[1] == 'e' && "heic"@[2] == 'i' && "heic"@[3] == 'c');
    assert("heif"@.len() == 4 && "heif"@[0] == 'h' && "heif"@[1] == 'e' && "heif"@[2] == 'i' && "heif"@[3] == 'f');
    assert("avif"@.len() == 4 && "avif"@[0] == 'a' && "avif"@[1] == 'v' && "avif"@[2] == 'i' && "avif"@[3] == 'f');
    assert("flac"@.len() == 4 && "flac"@[0] == 'f' && "flac"@[1] == 'l' && "flac"@[2] == 'a' && "flac"@[3] == 'c');
    assert("opus"@.len() == 4 && "opus"@[0] == 'o' && "opus"@[1] == 'p' && "opus"@[2] == 'u' && "opus"@[3] == 's');
    assert("jsonl"@.len() == 5 && "jsonl"@[0] == 'j' && "jsonl"@[1] == 's' && "jsonl"@[2] == 'o' && "jsonl"@[3] == 'n' && "jsonl"@[4] == 'l');
    assert("ipynb"@.len() == 5 && "ipynb"@[0] == 'i' && "ipynb"@[1] == 'p' && "ipynb"@[2] == 'y' && "ipynb"@[3] == 'n' && "ipynb"@[4] == 'b');
    assert("xhtml"@.len() == 5 && "xhtml"@[0] == 'x' && "xhtml"@[1] == 'h' && "xhtml"@[2] == 't' && "xhtml"@[3] == 'm' && "xhtml"@[4] == 'l');
    assert("ndjson"@.len() == 6);
    assert("markdown"@.len() == 8);
}

/// Only the type is known.
pub open spec fn typed(ext: Seq<char>) -> StreamInfoV {
    StreamInfoV {
        mimetype: detect::spec_mime_for_extension(ext),
        extension: None,
        charset: None,
        filename: None,
        url: None,
    }
}

/// The type that goes with an extension is taken by the format that the extension names.
pub proof fn extensions_and_types_agree(probe: ProbeV)
    ensures
        probe.looks_textual() ==> {
            &&& builtin::kind_takes(Kind::Csv, probe, typed("csv"@))
            &&& builtin::kind_takes(Kind::Csv, probe, typed("tsv"@))
            &&& builtin::kind_takes(Kind::Json, probe, typed("json"@))
            &&& builtin::kind_takes(Kind::Json, probe, typed("jsonl"@))
            &&& builtin::kind_takes(Kind::Ipynb, probe, typed("ipynb"@))
            &&& builtin::kind_takes(Kind::Xml, probe, typed("xml"@))
            &&& builtin::kind_takes(Kind::Feed, probe, typed("rss"@))
            &&& builtin::kind_takes(Kind::Feed, probe, typed("atom"@))
            &&& builtin::kind_takes(Kind::Html, probe, typed("html"@))
            &&& builtin::kind_takes(Kind::Text, probe, typed("txt"@))
            &&& builtin::kind_takes(Kind::Text, probe, typed("md"@))
        },
        probe.starts_with(detect::zip_magic()) ==> {
            &&& builtin::kind_takes(Kind::Docx, probe, typed("docx"@))
            &&& builtin::kind_takes(Kind::Pptx, probe, typed("pptx"@))
            &&& builtin::kind_takes(Kind::Epub, probe, typed("epub"@))
            &&& builtin::kind_takes(Kind::Zip, probe, typed("zip"@))
        },
        probe.starts_with(detect::ole_magic()) ==> {
            &&& builtin::kind_takes(Kind::Msg, probe, typed("msg"@))
            &&& builtin::kind_takes(Kind::Spreadsheet, probe, typed("xls"@))
        },
        builtin::kind_takes(Kind::Image, probe, typed("png"@)),
        builtin::kind_takes(Kind::Image, probe, typed("jpg"@)),
        builtin::kind_takes(Kind::Image, probe, typed("gif"@)),
        builtin::kind_takes(Kind::Audio, probe, typed("mp3"@)),
        builtin::kind_takes(Kind::Audio, probe, typed("wav"@)),
        builtin::kind_takes(Kind::Audio, probe, typed("flac"@)),
        json::is_lines(typed("jsonl"@)),
        json::is_lines(typed("ndjson"@)),
        !json::is_lines(typed("json"@)),
        converters::text::is_markdown(typed("md"@)),
        !converters::text::is_markdown(typed("txt"@)),
{
    lemma_extensions();
    reveal_strlit("image/png");
    reveal_strlit("image/jpeg");
    reveal_strlit("image/gif");
    reveal_strlit("image/");
    reveal_strlit("audio/mpeg");
    reveal_strlit("audio/wav");
    reveal_strlit("audio/flac");
    reveal_strlit("audio/");
    assert("image/png"@.take(6) =~= "image/"@);
    assert("image/jpeg"@.take(6) =~= "image/"@);
    assert("image/gif"@.take(6) =~= "image/"@);
    assert("audio/mpeg"@.take(6) =~= "audio/"@);
    assert("audio/wav"@.take(6) =~= "audio/"@);
    assert("audio/flac"@.take(6) =~= "audio/"@);
    reveal_strlit("application/json");
    reveal_strlit("application/x-ndjson");
    reveal_strlit("text/markdown");
    reveal_strlit("text/plain");
    reveal_strlit("application/rss+xml");
    reveal_strlit("application/atom+xml");
    reveal_strlit("application/xml");
    assert("application/json"@.len() == 16 && "application/x-ndjson"@.len() == 20);
    assert("text/markdown"@.len() == 13 && "text/plain"@.len() == 10);
    assert("application/rss+xml"@.len() == 19 && "application/atom+xml"@.len() == 20
        && "application/xml"@.len() == 15);
}

/// What the content shows goes with the extension that is named for it.
pub proof fn shown_types_have_their_extension()
    ensures
        detect::spec_mime_for_extension(detect::docx_type().1) == Some(detect::docx_type().0),
        detect::spec_mime_for_extension(detect::pptx_type().1) == Some(detect::pptx_type().0),
        detect::spec_mime_for_extension(detect::xlsx_type().1) == Some(detect::xlsx_type().0),
{
    lemma_extensions();
}

/// A declared type that the content does not bear out is named beside what the content
/// looks like; one that it bears out is not.
pub proof fn contradictions_are_named(
    mime: Seq<char>,
    ext: Seq<char>,
    declared: Seq<char>,
    base: StreamInfoV,
)
    requires
        base.mimetype == Some(declared),
    ensures
        detect::spec_compatible(declared, mime) ==> detect::spec_mismatch(Some((mime, ext)), base)
            is None,
        !detect::spec_compatible(declared, mime) ==> detect::spec_mismatch(Some((mime, ext)), base)
            == Some("declared "@ + declared + ", content looks like "@ + mime),
        detect::spec_mismatch(None, base) is None,
{
}

/// Bytes that are all stray control characters do not look like text; tabs, line ends
/// and what is printed are no stray control characters.
pub proof fn control_characters_are_not_text(b: Seq<u8>, c: u8)
    requires
        b.len() > 0,
        forall|i: int| 0 <= i < b.len() ==> #[trigger] b[i] < 0x09 || 0x0d < b[i] < 0x20,
    ensures
        !stream_info::spec_probe(b).looks_textual(),
        c == 0x09 || c == 0x0a || c == 0x0d || c >= 0x20 ==> !stream_info::is_stray_control(c),
{
    let h = stream_info::spec_probe(b).head;
    assert forall|i: int| 0 <= i < h.len() implies stream_info::is_stray_control(
        #[trigger] h[i],
    ) by {
        assert(h[i] == b[i]);
    }
    lemma_all_stray(h);
}

proof fn lemma_all_stray(h: Seq<u8>)
    requires
        forall|i: int| 0 <= i < h.len() ==> stream_info::is_stray_control(#[trigger] h[i]),
    ensures
        stream_info::stray_controls(h) == h.len(),
    decreases h.len(),
{
    if h.len() > 0 {
        let g = h.drop_last();
        assert forall|i: int| 0 <= i < g.len() implies stream_info::is_stray_control(
            #[trigger] g[i],
        ) by {
            assert(g[i] == h[i]);
        }
        lemma_all_stray(g);
        assert(stream_info::is_stray_control(h[h.len() - 1]));
    }
}

proof fn lemma_contains(a: Seq<char>, p: Seq<char>, b: Seq<char>)
    ensures
        chars::contains(a + p + b, p),
{
    let s = a + p + b;
    let n = a.len() as int;
    chars::lemma_find_from(s, p, 0);
    assert(s.subrange(n, n + p.len()) =~= p);
    assert(chars::matches_at(s, p, n));
}

/// A PDF that is locked is refused as encrypted, one that cannot be loaded as malformed
/// with the reason, and any other is read.
pub proof fn locked_files_are_refused(file: PdfFileV, m: Seq<char>, before: Seq<char>, after: Seq<char>)
    ensures
        file.encrypted ==> pdf::open_result(ExtractedV::Ready(file)) == Err::<DocumentV, ErrorV>(
            ErrorV::Encrypted { format: "pdf"@ },
        ),
        !file.encrypted ==> pdf::open_result(ExtractedV::Ready(file)) is Ok,
        pdf::open_result(ExtractedV::Failed(m)) == Err::<DocumentV, ErrorV>(
            ErrorV::Malformed { format: "pdf"@, message: m },
        ),
        chars::lower(m) == before + "encrypt"@ + after ==> pdf::extraction_error(m)
            == (ErrorV::Encrypted { format: "pdf"@ }),
        chars::lower(m) == before + "encrypt"@ + after || chars::lower(m) == before + "password"@
            + after ==> sheet::open_error(m) == (ErrorV::Encrypted { format: "spreadsheet"@ }),
        !m.contains('e') && !m.contains('E') ==> pdf::extraction_error(m) == (ErrorV::Malformed {
            format: "pdf"@,
            message: m,
        }),
{
    lemma_contains(before, "encrypt"@, after);
    lemma_contains(before, "password"@, after);
    if !m.contains('e') && !m.contains('E') {
        reveal_strlit("encrypt");
        let l = chars::lower(m);
        chars::lemma_find_from(l, "encrypt"@, 0);
        if let Some(k) = chars::find(l, "encrypt"@) {
            assert(l.subrange(k, k + 7)[0] == l[k]);
            assert(l[k] == chars::lower1(m[k]));
            lemma_lower_e(m[k]);
            assert(m.contains(m[k]));
        }
    }
}

proof fn lemma_lower_e(c: char)
    ensures
        chars::lower1(c) == 'e' ==> c == 'e' || c == 'E',
{
}

/// A file that states no title is named after itself; one that states a title keeps it.
pub proof fn files_without_a_title_are_named_after_themselves(
    s: PagesV,
    total: nat,
    info: StreamInfoV,
    name: Seq<char>,
)
    requires
        info.filename == Some(name),
    ensures
        s.doc.title is None ==> pdf::finish_pdf(s, total, info).title == properties::said(
            Some(name),
        ),
        s.doc.title is Some ==> pdf::finish_pdf(s, total, info).title == s.doc.title,
        pdf::finish_pdf(s, total, info).blocks == s.doc.blocks,
        sheet::titled_by_file(info).title == properties::said(Some(name)),
        converters::media::titled_by_file(info).title == properties::said(Some(name)),
{
}

/// The delimiter is a tab where the file is named or typed for it, else the one that
/// parts the sample, else a comma.
pub proof fn delimiters_are_chosen(info: StreamInfoV, s: Seq<char>)
    ensures
        info.is_ext("tsv"@) || info.is_ext("tab"@) || info.is_mime("text/tab-separated-values"@)
            ==> converters::csv::spec_delimiter(info, s) as char == '\t',
        info.extension is None && info.mimetype is None ==> converters::csv::spec_delimiter(info, s)
            == (match converters::csv::spec_sniff_delimiter(s) {
            Some(b) => b.0 as u8,
            None => ',' as u8,
        }),
{
}

/// A table's first row is its header where it stands alone or holds no number, and a
/// row like the others where it holds one.
pub proof fn headers_hold_no_number(
    caption: Option<Seq<char>>,
    rows: Seq<Seq<Seq<char>>>,
    i: int,
)
    requires
        rows.len() > 0,
    ensures
        rows.len() == 1 ==> converters::csv::csv_table(caption, rows).header is Some,
        rows.len() > 1 && 0 <= i < rows[0].len() && converters::csv::is_numeric(rows[0][i])
            ==> converters::csv::csv_table(caption, rows).header is None,
        rows.len() > 1 && (forall|j: int|
            0 <= j < rows[0].len() ==> !converters::csv::is_numeric(#[trigger] rows[0][j]))
            ==> converters::csv::csv_table(caption, rows).header is Some,
        converters::csv::csv_table(caption, rows).caption == caption,
{
}

/// How many of the names are a slide's.
pub open spec fn slide_names(names: Seq<Seq<char>>) -> nat
    decreases names.len(),
{
    if names.len() == 0 {
        0
    } else {
        slide_names(names.drop_last()) + (if ooxml::spec_slide_number(names.last()) is Some {
            1nat
        } else {
            0
        })
    }
}

/// Every slide of a presentation is among its slides, with its number, and nothing
/// else is.
pub proof fn every_slide_is_found(names: Seq<Seq<char>>)
    ensures
        ooxml::slides_of(names).len() == slide_names(names),
        forall|i: int|
            0 <= i < names.len() ==> (ooxml::spec_slide_number(#[trigger] names[i]) matches Some(k)
                ==> ooxml::slides_of(names).contains((k, names[i]))),
    decreases names.len(),
{
    if names.len() > 0 {
        let before = names.drop_last();
        every_slide_is_found(before);
        let t = ooxml::slides_of(before);
        let u = ooxml::slides_of(names);
        if let Some(k) = ooxml::spec_slide_number(names.last()) {
            ooxml::lemma_slide_place(t, k);
            let p = ooxml::slide_place(t, k);
            assert(u == t.insert(p, (k, names.last())));
            assert(u[p] == (k, names.last()));
            assert forall|x: SlideV| t.contains(x) implies #[trigger] u.contains(x) by {
                let j = t.index_of(x);
                assert(t[j] == x);
                if j < p {
                    assert(u[j] == x);
                } else {
                    assert(u[j + 1] == x);
                }
            }
        }
        assert forall|i: int| 0 <= i < names.len() implies (ooxml::spec_slide_number(
            #[trigger] names[i],
        ) matches Some(k) ==> u.contains((k, names[i]))) by {
            if i < before.len() {
                assert(before[i] == names[i]);
            }
        }
    }
}

/// A presentation is its slides in their order, under the title that the container
/// states.
pub proof fn presentations_are_their_slides(bytes: Seq<u8>, pre: CxV)
    ensures
        ooxml::pptx_result(bytes, pre).0 matches Ok(d) ==> {
            let core = ooxml::spec_core_properties(bytes, ir::empty_document(), pre);
            let slides = ooxml::slides_of(archive::archive_names(bytes));
            &&& slides.len() > 0
            &&& ooxml::with_slides(bytes, slides, 0, core.0, core.1).0 matches Ok(e) && e.blocks
                == d.blocks && e.metadata == d.metadata && (e.title is Some ==> d.title == e.title)
        },
{
}

proof fn lemma_spine_keeps(
    bytes: Seq<u8>,
    p: PackageV,
    base: Seq<char>,
    i: int,
    d: DocumentV,
    c: CxV,
)
    ensures
        epub::with_spine(bytes, p, base, i, d, c).0 matches Ok(e) ==> e.title == d.title
            && e.metadata == d.metadata,
    decreases p.spine.len() - i,
{
    if 0 <= i < p.spine.len() {
        let s = epub::with_spine_item(bytes, p, base, p.spine[i], d, c);
        if let Ok(e) = s.0 {
            lemma_spine_keeps(bytes, p, base, i + 1, e, s.1);
        }
    }
}

/// A book keeps what its package says of it, and the blocks of its chapters.
pub proof fn books_keep_their_properties(bytes: Seq<u8>, p: PackageV, base: Seq<char>, c: CxV)
    ensures
        epub::package_result(bytes, p, base, c).0 matches Ok(d) ==> {
            &&& d.title == properties::said(p.title)
            &&& d.metadata.author == p.creator
            &&& d.metadata.language == p.language
            &&& d.metadata.created == p.date
            &&& p.spine.len() > 0 ==> (epub::with_spine(
                bytes,
                p,
                base,
                0,
                epub::with_package(p),
                c,
            ).0 matches Ok(e) && e.blocks == d.blocks)
        },
{
    lemma_spine_keeps(bytes, p, base, 0, epub::with_package(p), c);
}

/// A level further down has the same budget.
pub proof fn levels_share_their_budget(c: CxV)
    requires
        c.depth < u32::MAX,
    ensures
        c.child().depth == c.depth + 1,
        c.child().limits == c.limits,
        c.child().expanded == c.expanded,
        c.child().embedded == c.embedded,
{
}

/// A picture's text is its alternative text, else its caption, else nothing.
pub proof fn pictures_have_a_text(img: ir::ImageV)
    ensures
        img.alt matches Some(a) ==> markdown::alt_text(img) == a,
        img.alt is None ==> (img.caption matches Some(c) ==> markdown::alt_text(img) == c),
        img.alt is None && img.caption is None ==> markdown::alt_text(img).len() == 0,
{
    reveal_strlit("");
}

/// The character may stand in a key without quotes.
pub open spec fn is_key_char(c: char) -> bool {
    ('a' <= c && c <= 'z') || ('A' <= c && c <= 'Z') || ('0' <= c && c <= '9') || c == '_' || c
        == '-'
}

/// A key of letters, digits, hyphens and underscores stands as it is; any other stands
/// between quotes.
pub proof fn keys_are_quoted_where_they_must_be(k: Seq<char>)
    ensures
        k.len() > 0 && (forall|i: int| 0 <= i < k.len() ==> is_key_char(#[trigger] k[i]))
            ==> markdown::yaml_key(k) == k,
        k.len() == 0 || (exists|i: int| 0 <= i < k.len() && !is_key_char(#[trigger] k[i])) ==> {
            let y = markdown::yaml_key(k);
            y.len() >= 2 && y[0] == '"' && y.last() == '"'
        },
{
    reveal_strlit("\"");
    assert forall|i: int| 0 <= i < k.len() implies is_key_char(#[trigger] k[i]) == (
    chars::is_ascii_alnum(k[i]) || k[i] == '_' || k[i] == '-') by {
        lemma_key_char(k[i]);
    }
}

proof fn lemma_key_char(c: char)
    ensures
        is_key_char(c) == (chars::is_ascii_alnum(c) || c == '_' || c == '-'),
{
}

} // verus!

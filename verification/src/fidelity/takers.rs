//! Which format takes an input, and how tables within tables are kept apart.

use vstd::prelude::*;
use crate::chars;
use crate::converters::builtin;
use crate::converters::builtin::Kind;
use crate::converters::ooxml;
use crate::converters::ooxml::WalkV;
use crate::detect;
use crate::error::ErrorV;
use crate::stream_info::{ProbeV, StreamInfoV};

verus! {

/// Every format takes the types that are its own.
pub proof fn formats_take_their_types(probe: ProbeV, info: StreamInfoV, mime: Seq<char>)
    requires
        info.mimetype == Some(mime),
        info.extension is None,
    ensures
        probe.looks_textual() && (mime == "text/csv"@ || mime == "text/tab-separated-values"@)
            ==> builtin::kind_takes(Kind::Csv, probe, info),
        probe.looks_textual() && (mime == "application/json"@ || mime == "application/x-ndjson"@)
            ==> builtin::kind_takes(Kind::Json, probe, info),
        probe.looks_textual() && mime == "application/x-ipynb+json"@ ==> builtin::kind_takes(
            Kind::Ipynb,
            probe,
            info,
        ),
        probe.looks_textual() && mime == "text/html"@ ==> builtin::kind_takes(
            Kind::Html,
            probe,
            info,
        ),
        probe.looks_textual() && (mime == "application/rss+xml"@ || mime == "application/atom+xml"@)
            ==> builtin::kind_takes(Kind::Feed, probe, info),
        probe.starts_with(detect::zip_magic()) && mime
            == "application/vnd.openxmlformats-officedocument.wordprocessingml.document"@
            ==> builtin::kind_takes(Kind::Docx, probe, info),
        probe.starts_with(detect::zip_magic()) && mime
            == "application/vnd.openxmlformats-officedocument.presentationml.presentation"@
            ==> builtin::kind_takes(Kind::Pptx, probe, info),
        probe.starts_with(detect::zip_magic()) && mime == "application/epub+zip"@
            ==> builtin::kind_takes(Kind::Epub, probe, info),
        probe.starts_with(detect::zip_magic()) && (mime == "application/zip"@ || mime
            == "application/x-zip-compressed"@) ==> builtin::kind_takes(Kind::Zip, probe, info),
        (probe.starts_with(detect::zip_magic()) || probe.starts_with(detect::ole_magic())) && mime
            == "application/vnd.ms-excel"@ ==> builtin::kind_takes(Kind::Spreadsheet, probe, info),
        probe.starts_with(detect::ole_magic()) && mime == "application/vnd.ms-outlook"@
            ==> builtin::kind_takes(Kind::Msg, probe, info),
        chars::starts_with(mime, "image/"@) ==> builtin::kind_takes(Kind::Image, probe, info),
        chars::starts_with(mime, "audio/"@) ==> builtin::kind_takes(Kind::Audio, probe, info),
        probe.contains(detect::pdf_magic()) && mime == "application/pdf"@ ==> builtin::kind_takes(
            Kind::Pdf,
            probe,
            info,
        ),
{
}

/// Every format takes the extensions that are its own.
pub proof fn formats_take_their_extensions(probe: ProbeV, info: StreamInfoV, ext: Seq<char>)
    requires
        info.mimetype is None,
        info.extension == Some(ext),
    ensures
        probe.looks_textual() && (ext == "csv"@ || ext == "tsv"@ || ext == "tab"@)
            ==> builtin::kind_takes(Kind::Csv, probe, info),
        probe.looks_textual() && (ext == "jsonl"@ || ext == "ndjson"@) && ext != "ipynb"@
            ==> builtin::kind_takes(Kind::Json, probe, info),
        probe.looks_textual() && (ext == "html"@ || ext == "htm"@ || ext == "xhtml"@)
            ==> builtin::kind_takes(Kind::Html, probe, info),
        probe.looks_textual() && (ext == "rss"@ || ext == "atom"@) ==> builtin::kind_takes(
            Kind::Feed,
            probe,
            info,
        ),
        probe.starts_with(detect::zip_magic()) ==> {
            &&& ext == "docx"@ ==> builtin::kind_takes(Kind::Docx, probe, info)
            &&& ext == "pptx"@ ==> builtin::kind_takes(Kind::Pptx, probe, info)
            &&& ext == "epub"@ ==> builtin::kind_takes(Kind::Epub, probe, info)
            &&& ext == "zip"@ ==> builtin::kind_takes(Kind::Zip, probe, info)
        },
        (probe.starts_with(detect::zip_magic()) || probe.starts_with(detect::ole_magic())) && (ext
            == "xlsx"@ || ext == "xlsm"@ || ext == "xlsb"@ || ext == "xls"@ || ext == "ods"@)
            ==> builtin::kind_takes(Kind::Spreadsheet, probe, info),
        probe.starts_with(detect::ole_magic()) && ext == "msg"@ ==> builtin::kind_takes(
            Kind::Msg,
            probe,
            info,
        ),
        !probe.looks_textual() && (ext == "jpg"@ || ext == "jpeg"@ || ext == "png"@ || ext == "gif"@
            || ext == "webp"@ || ext == "tif"@ || ext == "tiff"@ || ext == "heic"@ || ext == "heif"@
            || ext == "avif"@) ==> builtin::kind_takes(Kind::Image, probe, info),
        !probe.looks_textual() && (ext == "mp3"@ || ext == "wav"@ || ext == "flac"@ || ext == "m4a"@
            || ext == "aac"@ || ext == "ogg"@ || ext == "opus"@) ==> builtin::kind_takes(
            Kind::Audio,
            probe,
            info,
        ),
        probe.looks_textual() ==> !builtin::kind_takes(Kind::Image, probe, info)
            && !builtin::kind_takes(Kind::Audio, probe, info),
        probe.starts_with(detect::pdf_magic()) || (ext == "pdf"@ && probe.contains(
            detect::pdf_magic(),
        )) ==> builtin::kind_takes(Kind::Pdf, probe, info),
{
}

/// What does not start like an archive is no archive, whatever it is called.
pub proof fn archives_are_known_by_their_start(probe: ProbeV, info: StreamInfoV)
    requires
        !probe.starts_with(detect::zip_magic()),
    ensures
        !builtin::kind_takes(Kind::Zip, probe, info),
        !builtin::kind_takes(Kind::Docx, probe, info),
        !builtin::kind_takes(Kind::Pptx, probe, info),
        !builtin::kind_takes(Kind::Epub, probe, info),
        !probe.starts_with(detect::ole_magic()) ==> !builtin::kind_takes(
            Kind::Spreadsheet,
            probe,
            info,
        ) && !builtin::kind_takes(Kind::Msg, probe, info),
{
}

/// What no type or extension claims is taken by no format of its own.
pub proof fn unnamed_input_has_no_format_of_its_own(probe: ProbeV, info: StreamInfoV)
    requires
        info.mimetype is None,
        info.extension is None,
    ensures
        !builtin::kind_takes(Kind::Csv, probe, info),
        !builtin::kind_takes(Kind::Json, probe, info),
        !builtin::kind_takes(Kind::Ipynb, probe, info),
        !builtin::kind_takes(Kind::Feed, probe, info),
        !builtin::kind_takes(Kind::Docx, probe, info),
        !builtin::kind_takes(Kind::Pptx, probe, info),
        !builtin::kind_takes(Kind::Epub, probe, info),
        !builtin::kind_takes(Kind::Zip, probe, info),
        !builtin::kind_takes(Kind::Spreadsheet, probe, info),
        !builtin::kind_takes(Kind::Msg, probe, info),
        !builtin::kind_takes(Kind::Image, probe, info),
        !builtin::kind_takes(Kind::Audio, probe, info),
        !probe.starts_with(detect::pdf_magic()) ==> !builtin::kind_takes(Kind::Pdf, probe, info),
{
}

/// Notebooks are tried first and plain text last; archives come after pages, pages after
/// XML, and XML after all others.
pub proof fn formats_are_tried_by_rank(k: Kind)
    ensures
        k != Kind::Ipynb ==> builtin::kind_ranked(Kind::Ipynb) < builtin::kind_ranked(k),
        k != Kind::Text ==> builtin::kind_ranked(k) < builtin::kind_ranked(Kind::Text),
        k != Kind::Text && k != Kind::Zip ==> builtin::kind_ranked(k) < builtin::kind_ranked(
            Kind::Zip,
        ),
        k != Kind::Text && k != Kind::Zip && k != Kind::Html ==> builtin::kind_ranked(k)
            < builtin::kind_ranked(Kind::Html),
        k != Kind::Text && k != Kind::Zip && k != Kind::Html && k != Kind::Xml
            ==> builtin::kind_ranked(k) < builtin::kind_ranked(Kind::Xml),
{
}

/// The end of a row or of a table concerns the innermost table only.
pub proof fn inner_tables_leave_the_outer_ones(w: WalkV, depth: nat, j: int)
    requires
        1 <= depth <= w.tables.len(),
        0 <= j < w.tables.len(),
    ensures
        ({
            let r = ooxml::spec_close_row(w, depth);
            let at = depth - 1;
            &&& r.blocks == w.blocks && r.tables.len() == w.tables.len()
            &&& j != at ==> r.tables[j] == w.tables[j]
            &&& r.tables[at].row.len() == 0
            &&& w.tables[at].row.len() > 0 ==> r.tables[at].rows == w.tables[at].rows.push(
                w.tables[at].row,
            )
            &&& w.tables[at].row.len() == 0 ==> r.tables[at].rows == w.tables[at].rows
        }),
        ({
            let r = ooxml::spec_close_table(w, depth);
            let at = depth - 1;
            &&& r.tables.len() == w.tables.len()
            &&& j != at ==> r.tables[j] == w.tables[j]
            &&& r.tables[at].rows.len() == 0 && r.tables[at].row.len() == 0
            &&& w.tables[at].rows.len() == 0 ==> r.blocks == w.blocks
            &&& w.tables[at].rows.len() > 0 ==> r.blocks.len() == w.blocks.len() + 1
                && r.blocks.drop_last() == w.blocks
        }),
{
    let r = ooxml::spec_close_table(w, depth);
    if w.tables[depth - 1].rows.len() > 0 {
        assert(r.blocks.drop_last() =~= w.blocks);
    }
}

/// A file that does not open is malformed, under its format's name.
pub proof fn unreadable_files_are_malformed(bytes: Seq<u8>, format: Seq<char>)
    ensures
        crate::archive::archive_fault(bytes) is None <==> ooxml::open_fault(bytes, format) is None,
        crate::archive::archive_fault(bytes) matches Some(f) ==> (ooxml::open_fault(bytes, format)
            matches Some(ErrorV::Malformed { format: named, message }) && named == format && (f.0
            ==> message == "not a readable zip container"@) && (!f.0 ==> message == f.1)),
{
}

} // verus!

//! What becomes of failures, and what detection keeps of what it was told.

use vstd::prelude::*;
use crate::chars;
use crate::converters::extract::ExtractedV;
use crate::converters::html;
use crate::converters::media;
use crate::converters::pdf;
use crate::converters::sheet;
use crate::converters::text;
use crate::cx::CxV;
use crate::detect;
use crate::detect::Signal;
use crate::error::{ErrorV, WarningKind, WarningV};
use crate::ir::DocumentV;
use crate::markdown;
use crate::stream_info;
use crate::stream_info::StreamInfoV;
use crate::template;
use crate::template::{ParsedV, WrittenV};

verus! {

/// A reader that panics fails the conversion under its format's name, and so does one
/// that gives up.
pub proof fn failed_readers_fail_the_conversion(
    d: DocumentV,
    page: Seq<char>,
    said: Seq<char>,
    info: StreamInfoV,
    pre: CxV,
)
    ensures
        pdf::pdf_result(d, ExtractedV::Panicked, info, pre) == (
            Err::<DocumentV, ErrorV>(ErrorV::ConverterPanic { format: "pdf"@ }),
            pre,
        ),
        pdf::pdf_result(d, ExtractedV::Failed(said), info, pre).0 is Err,
        sheet::spreadsheet_result(ExtractedV::Panicked, info, pre) == (
            Err::<DocumentV, ErrorV>(ErrorV::ConverterPanic { format: "spreadsheet"@ }),
            pre,
        ),
        sheet::spreadsheet_result(ExtractedV::Failed(said), info, pre).0 is Err,
        html::html_document(page, ExtractedV::Panicked) == Err::<DocumentV, ErrorV>(
            ErrorV::ConverterPanic { format: "html"@ },
        ),
        html::html_document(page, ExtractedV::Failed(said)) == Err::<DocumentV, ErrorV>(
            ErrorV::Malformed { format: "html"@, message: said },
        ),
        media::audio_document(ExtractedV::Panicked, info) == Err::<DocumentV, ErrorV>(
            ErrorV::ConverterPanic { format: "audio"@ },
        ),
{
}

/// Whether an error names this stage and ends in these words.
pub open spec fn says(e: ErrorV, stage: Seq<char>, words: Seq<char>) -> bool {
    e matches ErrorV::Template { stage: s, message } && s == stage && words.is_suffix_of(message)
}

/// Whether an error's words start with a template's name.
pub open spec fn names(e: ErrorV, name: Seq<char>) -> bool {
    e matches ErrorV::Template { message, .. } && (name + ": "@).is_prefix_of(message)
}

/// A template that does not parse is refused with what is wrong with it; one of a block
/// is named. One that parses is not refused.
pub proof fn faulty_templates_are_refused(name: Seq<char>, said: Seq<char>)
    ensures
        template::parsed_document(ParsedV::Sound) is Ok,
        template::parsed_document(ParsedV::Faulty(said)) matches Err(e) && says(
            e,
            "parse document"@,
            said,
        ),
        template::parsed_document(ParsedV::Panicked) matches Err(e) && e is Template,
        template::parsed_block(name, ParsedV::Sound) is Ok,
        template::parsed_block(name, ParsedV::Faulty(said)) matches Err(e) && says(
            e,
            "parse blocks"@,
            said,
        ) && names(e, name),
        template::parsed_block(name, ParsedV::Panicked) matches Err(e) && names(e, name),
{
    let m = name + ": "@ + said;
    assert(m.subrange(m.len() - said.len(), m.len() as int) =~= said);
    assert(said.subrange(0, said.len() as int) =~= said);
}

/// What a template writes is the text; where it cannot be found or run, that is an error
/// with the reason, and for a block with its name.
pub proof fn templates_write_or_fail(
    name: Seq<char>,
    said: Seq<char>,
    warnings: Seq<WarningV>,
    max: nat,
)
    ensures
        template::written_block(name, WrittenV::Text(said)) == Ok::<Seq<char>, ErrorV>(said),
        template::written_block(name, WrittenV::Missing(said)) matches Err(e) && says(
            e,
            "load block"@,
            said,
        ),
        template::written_block(name, WrittenV::Failed(said)) matches Err(e) && says(
            e,
            "render block"@,
            said,
        ) && names(e, name),
        template::written_block(name, WrittenV::Panicked) matches Err(e) && names(e, name),
        chars::byte_len(said) <= max ==> (template::written_document(
            WrittenV::Text(said),
            warnings,
            max,
        ) matches Ok(r) && r.1 == warnings),
        chars::byte_len(said) > max ==> (template::written_document(
            WrittenV::Text(said),
            warnings,
            max,
        ) matches Ok(r) && r.1 == warnings.push(template::cut_warning(max))),
        template::written_document(WrittenV::Missing(said), warnings, max) matches Err(e) && says(
            e,
            "load document"@,
            said,
        ),
        template::written_document(WrittenV::Failed(said), warnings, max) matches Err(e) && says(
            e,
            "render document"@,
            said,
        ),
        template::written_document(WrittenV::Panicked, warnings, max) matches Err(e) && e is Template,
{
    let m = name + ": "@ + said;
    assert(m.subrange(m.len() - said.len(), m.len() as int) =~= said);
    assert(said.subrange(0, said.len() as int) =~= said);
    assert(warnings + Seq::<WarningV>::empty() =~= warnings);
    assert(warnings + seq![template::cut_warning(max)] =~= warnings.push(template::cut_warning(max)));
}

/// A stated encoding holds; only without one do the bytes decide. What is no text has
/// none.
pub proof fn stated_encodings_hold(b: Seq<u8>, base: StreamInfoV)
    ensures
        stream_info::spec_probe(b).looks_textual() && base.charset is Some ==> detect::text_charset(
            b,
            base,
        ) == base.charset,
        stream_info::spec_probe(b).looks_textual() && base.charset is None ==> detect::text_charset(
            b,
            base,
        ) == Some(detect::spec_sniff_charset(b)),
        !stream_info::spec_probe(b).looks_textual() ==> detect::text_charset(b, base) is None,
{
}

/// A guess from the content names its type and its extension, and keeps all else.
pub proof fn guesses_keep_what_is_known(k: (Seq<char>, Seq<char>), base: StreamInfoV)
    ensures
        detect::content_guess(None, base).len() == 0,
        ({
            let g = detect::content_guess(Some(k), base);
            &&& g.len() == 1
            &&& g[0].mimetype == Some(k.0) && g[0].extension == Some(k.1)
            &&& (StreamInfoV { mimetype: base.mimetype, extension: base.extension, ..g[0] }) == base
        }),
        base.extension is None ==> detect::extension_guess(base).len() == 0,
        base.extension matches Some(x) ==> (match detect::spec_mime_for_extension(
            stream_info::spec_normalize_ext(x),
        ) {
            None => detect::extension_guess(base).len() == 0,
            Some(m) => {
                let g = detect::extension_guess(base);
                &&& g.len() == 1
                &&& g[0].mimetype == Some(m)
                &&& g[0].extension == Some(stream_info::spec_normalize_ext(x))
                &&& (StreamInfoV { mimetype: base.mimetype, extension: base.extension, ..g[0] })
                    == base
            },
        }),
{
}

/// Markdown is known by its type or its extension.
pub proof fn markdown_is_known_by_its_name(info: StreamInfoV)
    ensures
        info.mimetype == Some("text/markdown"@) ==> text::is_markdown(info),
        info.extension == Some("md"@) ==> text::is_markdown(info),
        info.extension == Some("markdown"@) ==> text::is_markdown(info),
        info.mimetype != Some("text/markdown"@) && info.extension != Some("md"@) && info.extension
            != Some("markdown"@) ==> !text::is_markdown(info),
{
}

/// An archive may turn out to be an Office document or a book.
pub proof fn archives_may_be_documents(container: Seq<char>, inner: Seq<char>)
    requires
        container == "application/zip"@ || container == "application/x-zip-compressed"@,
    ensures
        detect::spec_compatible(container, "application/epub+zip"@),
        chars::contains(inner, "officedocument"@) ==> detect::spec_compatible(container, inner),
{
}

proof fn lemma_escape_starts(s: Seq<char>, n: int, newline: Seq<char>)
    requires
        1 <= n <= s.len(),
        markdown::needs_escape(s, 0),
    ensures
        markdown::escape_to(s, n, newline).len() >= 2,
        markdown::escape_to(s, n, newline)[0] == '\\',
        markdown::escape_to(s, n, newline)[1] == s[0],
    decreases n,
{
    if n == 1 {
        assert(markdown::escape_to(s, 0, newline) =~= seq![]);
        assert(markdown::escape_to(s, 1, newline) =~= markdown::escape_at(s, 0, newline));
    } else {
        lemma_escape_starts(s, n - 1, newline);
    }
}

/// Text never starts like a heading or like an item of a list, nor with a number and a
/// bare full stop.
pub proof fn text_does_not_start_like_a_list(s: Seq<char>, i: int)
    requires
        s.len() > 0,
    ensures
        s[0] == '#' || s[0] == '+' || s[0] == '-' || s[0] == '*' ==> markdown::escape_text(s).len()
            >= 2 && markdown::escape_text(s)[0] == '\\' && markdown::escape_text(s)[1] == s[0],
        0 < i < s.len() && s[i] == '.' && (forall|k: int|
            0 <= k < i ==> chars::is_digit(#[trigger] s[k])) ==> markdown::escape_at(s, i, " "@)
            == seq!['\\', '.'],
{
    if s[0] == '#' || s[0] == '+' || s[0] == '-' || s[0] == '*' {
        lemma_escape_starts(s, s.len() as int, " "@);
    }
}

/// No two kinds of warning have the same name, and no two grounds for a guess.
pub proof fn kinds_have_names_of_their_own(
    a: WarningKind,
    b: WarningKind,
    s: Signal,
    t: Signal,
)
    ensures
        a.name() == b.name() ==> a == b,
        s.name() == t.name() ==> s == t,
{
    reveal_strlit("truncated");
    reveal_strlit("skipped_member");
    reveal_strlit("degraded");
    reveal_strlit("heuristic_applied");
    reveal_strlit("no_text_layer");
    reveal_strlit("enrichment_failed");
    reveal_strlit("type_mismatch");
    assert("truncated"@.len() == 9 && "skipped_member"@.len() == 14 && "degraded"@.len() == 8
        && "heuristic_applied"@.len() == 17 && "no_text_layer"@.len() == 13
        && "enrichment_failed"@.len() == 17 && "type_mismatch"@.len() == 13);
    assert("heuristic_applied"@[0] == 'h' && "enrichment_failed"@[0] == 'e' && "no_text_layer"@[0]
        == 'n' && "type_mismatch"@[0] == 't');
    reveal_strlit("content");
    reveal_strlit("declared");
    reveal_strlit("extension");
    reveal_strlit("none");
    assert("content"@.len() == 7 && "declared"@.len() == 8 && "extension"@.len() == 9 && "none"@.len()
        == 4);
}

} // verus!

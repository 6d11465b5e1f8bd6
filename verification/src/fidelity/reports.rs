//! What is reported, and what is refused.

use vstd::prelude::*;
use crate::bytes;
use crate::chars;
use crate::config::ConvertOptions;
use crate::converters;
use crate::converters::builtin;
use crate::converters::builtin::Kind;
use crate::converters::epub;
use crate::converters::epub::PackageV;
use crate::converters::extract::ExtractedV;
use crate::converters::html;
use crate::converters::json::JsonV;
use crate::converters::media;
use crate::converters::media::AudioReadV;
use crate::converters::msg;
use crate::converters::msg::MessageV;
use crate::converters::ooxml;
use crate::converters::pdf;
use crate::converters::pdf::PagesV;
use crate::converters::sheet;
use crate::converters::sheet::SheetV;
use crate::converters::xml::{EntryV, NodeV};
use crate::converters::zip::Verdict;
use crate::cx;
use crate::cx::CxV;
use crate::detect;
use crate::engine;
use crate::error::{ErrorV, WarningKind, WarningV};
use crate::fidelity::styles;
use crate::fidelity::values;
use crate::ir;
use crate::ir::{BlockV, DocumentV};
use crate::markdown;
use crate::markdown::Page;
use crate::registry;
use crate::registry::{Converter, Entry};
use crate::stream_info::{ProbeV, StreamInfoV};
use crate::template;

verus! {

/// Templates see every warning, its kind and what it says.
pub proof fn templates_see_warnings(d: DocumentV, i: int)
    requires
        0 <= i < d.warnings.len(),
    ensures
        template::spec_document_value(d).get("warnings"@) matches Some(JsonV::Array(a)) && a.len()
            == d.warnings.len() && a[i].get("kind"@) == Some(JsonV::Str(d.warnings[i].kind.name()))
            && a[i].get("message"@) == Some(JsonV::Str(d.warnings[i].message)),
{
    values::templates_see_documents(d);
    reveal_strlit("kind");
    reveal_strlit("message");
    assert("kind"@.len() == 4 && "message"@.len() == 7);
    let w = d.warnings[i];
    let a = ("kind"@, JsonV::Str(w.kind.name()));
    let b = ("message"@, JsonV::Str(w.message));
    values::lemma_five(a, b, b, b, b, "kind"@);
    values::lemma_five(a, b, b, b, b, "message"@);
    values::objects_hold_their_values(seq![a, b], "kind"@);
    values::objects_hold_their_values(seq![a, b], "message"@);
    reveal_strlit("title");
    reveal_strlit("metadata");
    reveal_strlit("blocks");
    reveal_strlit("warnings");
    let t = ("title"@, template::opt_str(d.title));
    let m = ("metadata"@, template::metadata_value(d.metadata));
    let c = ("blocks"@, JsonV::Array(template::block_values(d.blocks)));
    let e = ("warnings"@, JsonV::Array(template::warning_values(d.warnings)));
    values::lemma_five(t, m, c, e, e, "warnings"@);
    values::objects_hold_their_values(seq![t, m, c, e], "warnings"@);
    assert(template::warning_values(d.warnings)[i] == template::warning_value(w));
}

/// A member that is left out is named, with the reason: that it is encrypted, or how
/// large it says it is. A directory is passed over in silence.
pub proof fn skipped_members_are_named(m: (Seq<char>, u64, bool), d: DocumentV, c: CxV)
    ensures
        ({
            let r = crate::converters::zip::screened(m, d, c);
            let safe = ir::spec_sanitize_member_name(m.0);
            &&& chars::ends_with(m.0, "/"@) ==> r == (Verdict::Skip, d, c)
            &&& r.1.blocks == d.blocks && r.1.title == d.title && r.1.metadata == d.metadata
            &&& !chars::ends_with(m.0, "/"@) && m.2 ==> r.0 == Verdict::Skip && r.1.warnings
                == d.warnings.push(
                WarningV { kind: WarningKind::SkippedMember, message: safe + ": "@ + "encrypted"@ },
            )
            &&& !chars::ends_with(m.0, "/"@) && !m.2 && c.embedded < c.limits.max_embedded_documents
                && m.1 > c.limits.max_expanded_bytes ==> r.0 == Verdict::Skip
                && r.1.warnings.len() == d.warnings.len() + 1 && r.1.warnings.last().kind
                == WarningKind::SkippedMember && safe.is_prefix_of(r.1.warnings.last().message)
            &&& !chars::ends_with(m.0, "/"@) && !m.2 && c.embedded < c.limits.max_embedded_documents
                && m.1 <= c.limits.max_expanded_bytes ==> r.0 == Verdict::Go && r.1 == d
        }),
{
}

/// An extension that the content does not bear out is named by its type.
pub proof fn extensions_are_held_to_the_content(
    k: (Seq<char>, Seq<char>),
    ext: Seq<char>,
    named: Seq<char>,
    base: StreamInfoV,
)
    requires
        base.mimetype is None,
        base.extension == Some(ext),
        detect::spec_mime_for_extension(ext) == Some(named),
    ensures
        !detect::spec_compatible(named, k.0) && named != k.0 ==> (detect::spec_mismatch(
            Some(k),
            base,
        ) matches Some(t) && ("declared "@ + named).is_prefix_of(t) && k.0.is_suffix_of(t)),
        detect::spec_compatible(named, k.0) || named == k.0 ==> detect::spec_mismatch(Some(k), base)
            is None,
{
    let t = "declared "@ + named + ", content looks like "@ + k.0;
    assert(t.subrange(t.len() - k.0.len(), t.len() as int) =~= k.0);
}

/// Who declares nothing is not contradicted.
pub proof fn silence_is_not_contradicted(
    sniffed: Option<(Seq<char>, Seq<char>)>,
    base: StreamInfoV,
)
    requires
        base.mimetype is None,
        base.extension is None,
    ensures
        detect::spec_mismatch(sniffed, base) is None,
{
}

proof fn lemma_first_missing(names: Seq<Seq<char>>, have: Seq<Seq<char>>, i: int)
    ensures
        0 <= i < names.len() && !have.contains(names[i]) ==> engine::first_missing(names, have)
            is Some,
        engine::first_missing(names, have) matches Some(w) ==> !have.contains(w) && names.contains(w),
    decreases names.len(),
{
    if names.len() > 0 {
        lemma_first_missing(names.skip(1), have, i - 1);
        if have.contains(names[0]) {
            if i > 0 && i < names.len() {
                assert(names.skip(1)[i - 1] == names[i]);
            }
            if let Some(w) = engine::first_missing(names.skip(1), have) {
                let j = choose|j: int| 0 <= j < names.skip(1).len() && names.skip(1)[j] == w;
                assert(names[j + 1] == w);
            }
        } else {
            assert(names[0] == names[0]);
        }
    }
}

/// An engine that is asked for a format which no converter has is refused. One that is
/// asked for none has them all.
pub proof fn unknown_formats_are_refused<C: Converter>(
    entries: Seq<Entry<C>>,
    options: ConvertOptions,
    i: int,
)
    ensures
        options.formats.enable is None ==> engine::selected(entries, options) == Ok::<
            Seq<Entry<C>>,
            ErrorV,
        >(entries),
        options.formats.enable matches Some(names) ==> (0 <= i < names@.len() && !registry::names_of(
            entries,
        ).contains(names@[i]@) ==> (engine::selected(entries, options) matches Err(e)
            && e is InvalidInput)),
        options.formats.enable matches Some(names) ==> ((forall|j: int|
            0 <= j < names@.len() ==> registry::names_of(entries).contains(#[trigger] names@[j]@))
            && registry::retained(entries, chars::texts(names@)).len() > 0 ==> engine::selected(
            entries,
            options,
        ) == Ok::<Seq<Entry<C>>, ErrorV>(registry::retained(entries, chars::texts(names@)))),
        options.formats.enable matches Some(names) ==> (names@.len() == 0 ==> engine::selected(
            entries,
            options,
        ) is Err),
{
    if let Some(names) = options.formats.enable {
        let ns = chars::texts(names@);
        let have = registry::names_of(entries);
        lemma_first_missing(ns, have, i);
        if forall|j: int| 0 <= j < names@.len() ==> have.contains(#[trigger] names@[j]@) {
            if let Some(w) = engine::first_missing(ns, have) {
                let j = choose|j: int| 0 <= j < ns.len() && ns[j] == w;
                assert(names@[j]@ == w);
            }
        }
        if names@.len() == 0 {
            lemma_none_kept(entries, ns);
        }
    }
}

proof fn lemma_none_kept<C: Converter>(s: Seq<Entry<C>>, keep: Seq<Seq<char>>)
    requires
        keep.len() == 0,
    ensures
        registry::retained(s, keep).len() == 0,
    decreases s.len(),
{
    if s.len() > 0 {
        lemma_none_kept(s.drop_last(), keep);
    }
}

/// A contradiction is added to the document's warnings, and nothing else changes.
pub proof fn contradictions_are_warned_of(d: DocumentV, said: Seq<char>)
    ensures
        registry::noted(d, None) == d,
        registry::noted(d, Some(said)).warnings == d.warnings.push(
            WarningV { kind: WarningKind::TypeMismatch, message: said },
        ),
        registry::noted(d, Some(said)).blocks == d.blocks,
        registry::noted(d, Some(said)).title == d.title,
        registry::noted(d, Some(said)).metadata == d.metadata,
{
}

/// A cut table says first how many rows it shows, then how many there are; a cut output
/// how many bytes it may have.
pub proof fn cuts_say_how_much(max: nat, total: nat)
    ensures
        markdown::rows_warning(max, total).kind == WarningKind::Truncated,
        ("table truncated to "@ + chars::decimal(max) + " of "@).is_prefix_of(
            markdown::rows_warning(max, total).message,
        ),
        (" of "@ + chars::decimal(total) + " rows (max_table_rows)"@).is_suffix_of(
            markdown::rows_warning(max, total).message,
        ),
        markdown::output_warning(max).kind == WarningKind::Truncated,
        ("output reached max_output_bytes ("@ + chars::decimal(max) + ")"@).is_prefix_of(
            markdown::output_warning(max).message,
        ),
        template::cut_warning(max).kind == WarningKind::Truncated,
        ("templated output reached max_output_bytes ("@ + chars::decimal(max) + ")"@).is_prefix_of(
            template::cut_warning(max).message,
        ),
{
    let m = markdown::rows_warning(max, total).message;
    let s = " of "@ + chars::decimal(total) + " rows (max_table_rows)"@;
    assert(m.subrange(m.len() - s.len(), m.len() as int) =~= s);
    reveal_strlit(")");
    reveal_strlit(") and was cut at a block boundary");
    let o = markdown::output_warning(max).message;
    let p = "output reached max_output_bytes ("@ + chars::decimal(max) + ")"@;
    assert(o.subrange(0, p.len() as int) =~= p);
}

/// A character beyond the first plane reads back from its two units, and a unit that
/// lost its partner becomes the replacement character.
pub proof fn paired_units_read_back(v: u32, rest: Seq<u16>)
    requires
        0x10000 <= v <= 0x10ffff,
    ensures
        ({
            let hi = (0xd800 + (v - 0x10000) / 0x400) as u16;
            let lo = (0xdc00 + (v - 0x10000) % 0x400) as u16;
            &&& bytes::utf16_text(seq![hi, lo] + rest) == seq![v as char] + bytes::utf16_text(rest)
            &&& bytes::utf16_text(seq![lo] + rest) == seq!['\u{fffd}'] + bytes::utf16_text(rest)
            &&& rest.len() > 0 && (rest[0] < 0xdc00 || rest[0] > 0xdfff) ==> bytes::utf16_text(
                seq![hi] + rest,
            ) == seq!['\u{fffd}'] + bytes::utf16_text(rest)
        }),
{
    let n = v - 0x10000;
    assert(0 <= n / 0x400 < 0x400 && 0 <= n % 0x400 < 0x400 && n == (n / 0x400) * 0x400 + n % 0x400);
    let hi = (0xd800 + n / 0x400) as u16;
    let lo = (0xdc00 + n % 0x400) as u16;
    assert(hi == 0xd800 + n / 0x400);
    assert(lo == 0xdc00 + n % 0x400);
    assert((seq![hi, lo] + rest).skip(2) =~= rest);
    assert((seq![lo] + rest).skip(1) =~= rest);
    assert((seq![hi] + rest).skip(1) =~= rest);
}

/// A message shows its plain body under a rule. One that has another body only is
/// degraded, and one without any has no text.
pub proof fn bodies_are_shown_or_missed(d: DocumentV, m: MessageV)
    ensures
        ({
            let r = msg::with_body(d, m);
            &&& m.get("body"@) matches Some(b) ==> r.warnings == d.warnings && r.blocks == d.blocks
                + seq![BlockV::Rule] + converters::spec_paragraphs(b)
            &&& m.get("body"@) is None ==> r.blocks == d.blocks && r.warnings.len()
                == d.warnings.len() + 1 && r.warnings.drop_last() == d.warnings
            &&& m.get("body"@) is None && m.get("body_html"@) is Some ==> r.warnings.last().kind
                == WarningKind::Degraded
            &&& m.get("body"@) is None && m.get("body_rtf"@) is Some ==> r.warnings.last().kind
                == WarningKind::Degraded
            &&& m.get("body"@) is None && m.get("body_html"@) is None && m.get("body_rtf"@) is None
                ==> r.warnings.last().kind == WarningKind::NoTextLayer
        }),
{
    let r = msg::with_body(d, m);
    if m.get("body"@) is None {
        assert(r.warnings.drop_last() =~= d.warnings);
    }
}

/// Attachments that are named are reported as left out, by their number.
pub proof fn attachments_are_reported(d: DocumentV, m: MessageV)
    ensures
        ({
            let r = msg::with_attachments(d, m);
            &&& m.attachments.len() == 0 ==> r == d
            &&& m.attachments.len() > 0 ==> r.warnings.len() == d.warnings.len() + 1
                && r.warnings.drop_last() == d.warnings && r.warnings.last().kind
                == WarningKind::SkippedMember && (chars::decimal(m.attachments.len())
                + " "@).is_prefix_of(r.warnings.last().message)
        }),
{
    let r = msg::with_attachments(d, m);
    if m.attachments.len() > 0 {
        assert(r.warnings.drop_last() =~= d.warnings);
        reveal_strlit(" ");
        reveal_strlit(" attachment(s) named but not converted");
        let p = chars::decimal(m.attachments.len()) + " "@;
        assert(r.warnings.last().message.subrange(0, p.len() as int) =~= p);
    }
}

/// A file that had headings guessed for it says so, and so does one with blank pages or
/// with nothing but blank pages.
pub proof fn guesses_and_gaps_are_reported(
    d: DocumentV,
    s: PagesV,
    empty: Seq<usize>,
    total: nat,
    info: StreamInfoV,
    pre: CxV,
)
    ensures
        pdf::with_guesses(d, false) == d,
        pdf::with_guesses(d, true).warnings.len() == d.warnings.len() + 1,
        pdf::with_guesses(d, true).warnings.last().kind == WarningKind::HeuristicApplied,
        pdf::with_guesses(d, true).blocks == d.blocks,
        pdf::with_empty_pages(d, seq![], total) == d,
        empty.len() > 0 ==> pdf::with_empty_pages(d, empty, total).warnings.len()
            == d.warnings.len() + 1 && pdf::with_empty_pages(d, empty, total).warnings.last().kind
            == WarningKind::NoTextLayer && pdf::with_empty_pages(d, empty, total).blocks == d.blocks,
        empty.len() > 0 ==> (chars::decimal(empty.len()) + " of "@ + chars::decimal(
            total,
        )).is_prefix_of(pdf::with_empty_pages(d, empty, total).warnings.last().message),
        s.doc.blocks.len() == 0 && s.empty.len() == total ==> pdf::finish_pdf(
            s,
            total,
            info,
        ).warnings.last().kind == WarningKind::Degraded,
        pdf::pdf_result(d, ExtractedV::Ready(seq![]), info, pre).0 matches Ok(r) && r.blocks
            == d.blocks && r.warnings.len() == d.warnings.len() + 1 && r.warnings.last().kind
            == WarningKind::NoTextLayer,
{
}

/// What has no text says that it has none, what is left out says so, and what is cut
/// says that it is.
pub proof fn losses_have_their_kind(
    info: StreamInfoV,
    pre: CxV,
    said: Seq<char>,
    max: u32,
    d: DocumentV,
)
    ensures
        html::no_prose().kind == WarningKind::NoTextLayer,
        ooxml::no_body().kind == WarningKind::NoTextLayer,
        epub::no_text(said) == (WarningV { kind: WarningKind::NoTextLayer, message: said }),
        epub::skipped(said) == (WarningV { kind: WarningKind::SkippedMember, message: said }),
        sheet::spreadsheet_result(ExtractedV::Ready(Seq::<SheetV>::empty()), info, pre).0 matches Ok(
            r,
        ) && r.blocks.len() == 0 && r.warnings.len() == 1 && r.warnings[0].kind
            == WarningKind::NoTextLayer,
        crate::converters::zip::exhausted().kind == WarningKind::Truncated,
        crate::converters::zip::too_many(max).kind == WarningKind::Truncated,
        ("stopped after "@ + chars::decimal(max as nat)).is_prefix_of(
            crate::converters::zip::too_many(max).message,
        ),
        crate::converters::zip::too_deep(max).warnings.len() == 1,
        crate::converters::zip::too_deep(max).warnings[0].kind == WarningKind::SkippedMember,
        crate::converters::zip::too_deep(max).blocks.len() == 0,
        d.blocks.len() > 0 || d.warnings.len() > 0 ==> crate::converters::zip::finish_zip(d) == d,
        d.blocks.len() == 0 && d.warnings.len() == 0 ==> crate::converters::zip::finish_zip(
            d,
        ).warnings.len() == 1 && crate::converters::zip::finish_zip(d).warnings[0].kind
            == WarningKind::NoTextLayer,
        media::audio_warning().kind == WarningKind::Degraded,
        media::finish_audio(d).warnings == d.warnings.push(media::audio_warning()),
        media::audio_document(ExtractedV::Ready(AudioReadV::Unread(said)), info) matches Ok(r)
            && r.warnings.len() == 2 && r.warnings[0].kind == WarningKind::Degraded
            && said.is_suffix_of(r.warnings[0].message),
        media::audio_document(ExtractedV::Ready(AudioReadV::Unknown), info) matches Err(e)
            && e is Malformed,
        media::audio_document(ExtractedV::Failed(said), info) == Err::<DocumentV, ErrorV>(
            ErrorV::Malformed { format: "audio"@, message: said },
        ),
{
    let m = "audio tags could not be read: "@ + said;
    assert(m.subrange(m.len() - said.len(), m.len() as int) =~= said);
}

/// An entry with a title, a link or a summary is worth showing; a date alone is not.
pub proof fn entries_with_anything_to_say_are_shown(e: EntryV)
    ensures
        e.title.len() > 0 ==> !e.is_empty(),
        e.link.len() > 0 ==> !e.is_empty(),
        e.summary.len() > 0 ==> !e.is_empty(),
        e.title.len() == 0 && e.link.len() == 0 && e.summary.len() == 0 ==> e.is_empty(),
{
}

/// Plain text and Markdown are text, and so is any other kind of text that has no
/// format of its own. Pages, tables and XML are left to theirs.
pub proof fn formats_of_their_own_are_no_plain_text(probe: ProbeV, info: StreamInfoV)
    requires
        probe.looks_textual(),
    ensures
        info.mimetype == Some("text/plain"@) || info.mimetype == Some("text/markdown"@)
            || info.mimetype == Some("application/octet-stream"@) ==> builtin::kind_takes(
            Kind::Text,
            probe,
            info,
        ),
        info.mimetype == Some("text/html"@) || info.mimetype == Some("text/xml"@) || info.mimetype
            == Some("text/csv"@) || info.mimetype == Some("text/tab-separated-values"@)
            ==> !builtin::kind_takes(Kind::Text, probe, info),
        info.mimetype matches Some(t) ==> (!chars::starts_with(t, "text/"@) && t
            != "application/octet-stream"@ && t != "text/plain"@ && t != "text/markdown"@
            ==> !builtin::kind_takes(Kind::Text, probe, info)),
        info.mimetype matches Some(t) ==> (chars::starts_with(t, "text/"@) && t != "text/html"@ && t
            != "text/xml"@ && t != "text/csv"@ && t != "text/tab-separated-values"@
            ==> builtin::kind_takes(Kind::Text, probe, info)),
{
    reveal_strlit("text/plain");
    reveal_strlit("text/markdown");
    reveal_strlit("application/octet-stream");
    reveal_strlit("text/html");
    reveal_strlit("text/xml");
    reveal_strlit("text/csv");
    reveal_strlit("text/tab-separated-values");
    assert("text/plain"@.len() == 10 && "text/markdown"@.len() == 13 && "application/octet-stream"@.len()
        == 24 && "text/html"@.len() == 9 && "text/xml"@.len() == 8 && "text/csv"@.len() == 8
        && "text/tab-separated-values"@.len() == 25);
}

/// YAML front matter stands between dashes, each property behind a colon; TOML front
/// matter between plus signs, each behind an equals sign. Without either there is none.
pub proof fn front_matter_has_its_style(p: Page, d: DocumentV)
    requires
        !p.tight,
        markdown::front_pairs(d.title, d.metadata).len() > 0,
        !markdown::front_matter(p, markdown::fresh(), d).truncated,
    ensures
        p.opts.front_matter is Off ==> markdown::front_matter(p, markdown::fresh(), d)
            == markdown::fresh(),
        p.opts.front_matter is Yaml ==> chars::starts_with(
            markdown::front_matter(p, markdown::fresh(), d).out,
            styles::stacked(
                (seq!["---"@] + styles::pair_texts(
                    markdown::front_pairs(d.title, d.metadata),
                    ": "@,
                )).push("---"@),
            ),
        ),
        p.opts.front_matter is Toml ==> chars::starts_with(
            markdown::front_matter(p, markdown::fresh(), d).out,
            styles::stacked(
                (seq!["+++"@] + styles::pair_texts(
                    markdown::front_pairs(d.title, d.metadata),
                    " = "@,
                )).push("+++"@),
            ),
        ),
{
    let pairs = markdown::front_pairs(d.title, d.metadata);
    if p.opts.front_matter is Yaml {
        styles::front_matter_stands_between_fences(p, pairs, "---"@, ": "@);
    } else if p.opts.front_matter is Toml {
        styles::front_matter_stands_between_fences(p, pairs, "+++"@, " = "@);
    }
}

/// A part of a package is kept under its identifier; the table of contents is kept
/// apart.
pub proof fn parts_are_kept_under_their_identifier(
    p: PackageV,
    n: NodeV,
    id: Seq<char>,
    href: Seq<char>,
)
    requires
        n.name() == "item"@,
        n.attr("id"@) == Some(id),
        n.attr("href"@) == Some(href),
    ensures
        ({
            let r = epub::package_step(p, n);
            &&& epub::is_nav(n) ==> r.manifest == p.manifest && r.nav_ids.contains(id)
                && r.nav_ids.len() == p.nav_ids.len() + 1
            &&& !epub::is_nav(n) ==> r.nav_ids == p.nav_ids && r.manifest == p.manifest.push(
                (id, href),
            )
            &&& r.spine == p.spine && r.title == p.title && r.creator == p.creator && r.language
                == p.language && r.date == p.date
        }),
{
    reveal_strlit("title");
    reveal_strlit("creator");
    reveal_strlit("language");
    reveal_strlit("date");
    reveal_strlit("item");
    assert("title"@.len() == 5 && "creator"@.len() == 7 && "language"@.len() == 8 && "date"@.len()
        == 4 && "item"@.len() == 4);
    assert("item"@[0] == 'i' && "date"@[0] == 'd');
    assert(p.nav_ids.push(id).last() == id);
}

/// Time is counted in whole milliseconds.
pub proof fn time_is_counted_in_milliseconds(nanos: u128)
    requires
        nanos / 1_000_000 <= u64::MAX,
    ensures
        cx::millis(nanos) * 1_000_000 <= nanos < (cx::millis(nanos) + 1) * 1_000_000,
{
}

/// No two formats have the same name.
#[verifier::rlimit(60)]
#[verifier::spinoff_prover]
pub proof fn formats_have_names_of_their_own(a: Kind, b: Kind)
    ensures
        builtin::kind_named(a) == builtin::kind_named(b) ==> a == b,
{
    reveal_strlit("text");
    reveal_strlit("zip");
    reveal_strlit("html");
    reveal_strlit("csv");
    reveal_strlit("json");
    reveal_strlit("ipynb");
    reveal_strlit("xml");
    reveal_strlit("feed");
    reveal_strlit("docx");
    reveal_strlit("pptx");
    reveal_strlit("spreadsheet");
    reveal_strlit("epub");
    reveal_strlit("pdf");
    reveal_strlit("image");
    reveal_strlit("audio");
    reveal_strlit("msg");
    assert("text"@.len() == 4 && "html"@.len() == 4 && "json"@.len() == 4 && "feed"@.len() == 4
        && "docx"@.len() == 4 && "pptx"@.len() == 4 && "epub"@.len() == 4);
    assert("text"@[0] == 't' && "html"@[0] == 'h' && "json"@[0] == 'j' && "feed"@[0] == 'f'
        && "docx"@[0] == 'd' && "pptx"@[0] == 'p' && "epub"@[0] == 'e');
    assert("zip"@.len() == 3 && "csv"@.len() == 3 && "xml"@.len() == 3 && "pdf"@.len() == 3
        && "msg"@.len() == 3);
    assert("zip"@[0] == 'z' && "csv"@[0] == 'c' && "xml"@[0] == 'x' && "pdf"@[0] == 'p' && "msg"@[0]
        == 'm');
    assert("ipynb"@.len() == 5 && "image"@.len() == 5 && "audio"@.len() == 5 && "spreadsheet"@.len()
        == 11);
    assert("ipynb"@[1] == 'p' && "image"@[1] == 'm' && "audio"@[1] == 'u');
}

} // verus!

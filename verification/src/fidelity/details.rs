//! Finer points of what documents keep.

use vstd::prelude::*;
use crate::chars;
use crate::converters;
use crate::converters::html;
use crate::converters::json;
use crate::converters::json::JsonV;
use crate::converters::media;
use crate::converters::msg;
use crate::converters::msg::MessageV;
use crate::converters::ooxml;
use crate::converters::ooxml::WalkV;
use crate::converters::pdf;
use crate::converters::xml;
use crate::converters::xml::{EntryV, FeedV, NodeV};
use crate::cx::CxV;
use crate::detect;
use crate::error::ErrorV;
use crate::fidelity;
use crate::fidelity::word;
use crate::ir;
use crate::ir::{BlockV, DocumentV, SpanV, TableV};
use crate::markdown;
use crate::markdown::{Page, Sheet};
use crate::stream_info::{ProbeV, StreamInfoV};

verus! {

/// A word that a line end breaks is put together again; other lines are parted by a
/// space, and blank ones leave nothing.
pub proof fn broken_words_are_put_together(before: Seq<char>, line: Seq<char>)
    ensures
        !chars::is_blank(line) ==> pdf::rejoin_line(before.push('-'), line) == before + chars::trim(
            line,
        ),
        !chars::is_blank(line) && before.len() > 0 && before.last() != '-' ==> pdf::rejoin_line(
            before,
            line,
        ) == before + seq![' '] + chars::trim(line),
        !chars::is_blank(line) ==> pdf::rejoin_line(seq![], line) == chars::trim(line),
        chars::is_blank(line) ==> pdf::rejoin_line(before, line) == before,
{
    assert(before.push('-').drop_last() =~= before);
    assert(before.push(' ') =~= before + seq![' ']);
}

/// A numbered paragraph without a style of its own becomes an item: of the list before
/// it, or of a new one with bullets.
pub proof fn numbered_paragraphs_become_items(w: WalkV)
    requires
        w.list_level is Some,
        w.style is None,
        !chars::is_blank(ir::plain(ooxml::spec_runs_to_inline(w.runs))),
    ensures
        ({
            let r = ooxml::spec_close_paragraph(w, 0);
            let text = ooxml::spec_runs_to_inline(w.runs);
            &&& r.blocks.len() > 0
            &&& r.blocks.last() matches BlockV::List { ordered, items } && items.len() > 0
                && items.last() == seq![BlockV::Paragraph(text)] && (if w.blocks.len() > 0
                && w.blocks.last() is List {
                r.blocks.drop_last() == w.blocks.drop_last() && ordered
                    == w.blocks.last()->List_ordered && items.drop_last()
                    == w.blocks.last()->List_items
            } else {
                r.blocks.drop_last() == w.blocks && !ordered && items.len() == 1
            })
        }),
{
    let r = ooxml::spec_close_paragraph(w, 0);
    let text = ooxml::spec_runs_to_inline(w.runs);
    let item = seq![BlockV::Paragraph(text)];
    assert(r.blocks == ooxml::add_item(w.blocks, false, text));
    if w.blocks.len() > 0 && w.blocks.last() is List {
        if let BlockV::List { ordered, items } = w.blocks.last() {
            assert(items.push(item).drop_last() =~= items);
            let l = BlockV::List { ordered, items: items.push(item) };
            assert(w.blocks.drop_last().push(l).drop_last() =~= w.blocks.drop_last());
        }
    } else {
        let l = BlockV::List { ordered: false, items: seq![item] };
        assert(w.blocks.push(l).drop_last() =~= w.blocks);
    }
}

/// A paragraph's numbering holds until the paragraph ends.
pub proof fn numbering_is_read(w: WalkV, n: NodeV, rels: Seq<(Seq<char>, Seq<char>)>)
    ensures
        n.name() == "numpr"@ ==> ooxml::walk_step(w, n, rels).list_level is Some && ooxml::walk_step(
            w,
            n,
            rels,
        ).blocks == w.blocks && ooxml::walk_step(w, n, rels).runs == w.runs,
        n.name() == "pstyle"@ ==> ooxml::walk_step(w, n, rels).style == n.attr("val"@)
            && ooxml::walk_step(w, n, rels).runs == w.runs,
        n.name() == "p"@ ==> ooxml::walk_step(w, n, rels).list_level is None && ooxml::walk_step(
            w,
            n,
            rels,
        ).style is None && ooxml::walk_step(w, n, rels).runs.len() == 0,
{
    word::lemma_names();
    reveal_strlit("numpr");
    reveal_strlit("pstyle");
    reveal_strlit("ilvl");
    assert("numpr"@.len() == 5 && "pstyle"@.len() == 6 && "ilvl"@.len() == 4);
}

/// The paragraphs of a cell stand below each other.
pub proof fn cells_gather_their_paragraphs(w: WalkV, depth: nat)
    requires
        depth > 0,
        !chars::is_blank(ooxml::concat_unlinked(w.runs)),
    ensures
        ({
            let r = ooxml::spec_close_paragraph(w, depth);
            let t = chars::words(ooxml::concat_unlinked(w.runs));
            &&& r.blocks == w.blocks
            &&& r.cell matches Some(c) && chars::words(c) == (match w.cell {
                Some(b) => chars::words(b) + t,
                None => t,
            })
        }),
{
    reveal_strlit("\n");
    let t = ooxml::concat_unlinked(w.runs);
    let q = converters::spec_squeeze(t);
    fidelity::lemma_squeeze_blank(t);
    converters::squeezing_is_idempotent(t);
    if let Some(b) = w.cell {
        fidelity::lemma_words_apart(b, '\n', q);
        assert(b + "\n"@ + q =~= b.push('\n') + q);
        assert(b + seq!['\n'] + q =~= b + "\n"@ + q);
    }
}

/// A cell shows the text of its paragraphs, or its whole text where it has none.
pub proof fn cells_close_with_their_text(w: WalkV, fallback: Seq<char>)
    requires
        w.tables.len() > 0,
    ensures
        ({
            let r = ooxml::spec_close_cell(w, 1, fallback);
            let row = r.tables[0].row;
            &&& row.len() == w.tables[0].row.len() + 1
            &&& row.drop_last() == w.tables[0].row
            &&& ir::plain(row.last()) == (match w.cell {
                Some(c) => if c.len() > 0 {
                    c
                } else {
                    fallback
                },
                None => fallback,
            })
            &&& r.cell is None && r.blocks == w.blocks && r.tables[0].rows == w.tables[0].rows
        }),
{
    let t = match w.cell {
        Some(c) => if c.len() > 0 {
            c
        } else {
            fallback
        },
        None => fallback,
    };
    fidelity::lemma_plain_text(t);
    let r = ooxml::spec_close_cell(w, 1, fallback);
    assert(r.tables[0].row == w.tables[0].row.push(seq![SpanV::Text(t)]));
    assert(r.tables[0].row.drop_last() =~= w.tables[0].row);
}

/// A heading of an embedded document stands two levels below its own, under the name of
/// the document.
pub proof fn embedded_headings_stand_lower(
    p: Page,
    s: Sheet,
    name: Seq<char>,
    doc: DocumentV,
    level: u8,
    text: Seq<SpanV>,
)
    requires
        doc.blocks == seq![BlockV::Heading { level, text }],
        level <= 200,
        !markdown::full(p, markdown::spaced_line(p, s, markdown::member_heading(p, name))),
    ensures
        markdown::block(p, s, BlockV::Embedded { name, doc: Box::new(doc) }, 0) == markdown::blank(
            p,
            markdown::block(
                p,
                markdown::spaced_line(p, s, markdown::member_heading(p, name)),
                BlockV::Heading { level: (level + 2) as u8, text },
                0,
            ),
        ),
        markdown::member_heading(p, name) == chars::repeat(
            "#"@,
            markdown::heading_level(2, p.opts.heading_offset, 0),
        ) + seq![' '] + markdown::escape_text(name),
{
    reveal_strlit(" ");
    assert(" "@ =~= seq![' ']);
    let h = BlockV::Heading { level, text };
    let a = markdown::spaced_line(p, s, markdown::member_heading(p, name));
    let e = BlockV::Embedded { name, doc: Box::new(doc) };
    assert(doc.blocks.drop_last() =~= seq![]);
    assert(doc.blocks.last() == h);
    assert(markdown::blocks(p, a, doc.blocks.drop_last(), 2) == a);
    assert(markdown::sat2(0) == 2);
    assert(markdown::blocks(p, a, doc.blocks, 2) == markdown::block(p, a, h, 2));
    assert(markdown::block(p, s, e, 0) == markdown::blank(
        p,
        markdown::blocks(p, a, doc.blocks, markdown::sat2(0)),
    ));
}

/// A line break is two spaces and a line feed, and in a cell a break of its own.
pub proof fn line_breaks_are_written()
    ensures
        markdown::span(SpanV::LineBreak, false) == seq![' ', ' ', '\n'],
        markdown::span(SpanV::LineBreak, true) == seq!['<', 'b', 'r', '>'],
{
    reveal_strlit("  \n");
    reveal_strlit("<br>");
    assert("  \n"@ =~= seq![' ', ' ', '\n']);
    assert("<br>"@ =~= seq!['<', 'b', 'r', '>']);
}

/// What the first block of a document begins with.
proof fn lemma_first(p: Page, t: Seq<char>, verbatim: bool)
    requires
        !p.tight,
    ensures
        ({
            let r = if verbatim {
                markdown::verbatim_line(p, markdown::fresh(), t)
            } else {
                markdown::spaced_line(p, markdown::fresh(), t)
            };
            !r.truncated ==> chars::starts_with(r.out, t.push('\n'))
        }),
{
    reveal_strlit("\n");
    assert("\n"@ =~= seq!['\n']);
    let s = markdown::fresh();
    assert(markdown::blank(p, s) == s);
    assert(markdown::loose(p) == p);
    let u = markdown::line(p, s, t);
    assert(!u.truncated ==> u.out =~= t.push('\n'));
    let r = markdown::spaced_line(p, s, t);
    if !r.truncated {
        assert(!u.truncated);
        assert(r.out.take(u.out.len() as int) =~= u.out);
    }
}

/// A rule is a line of three hyphens, Markdown is written as it is but for white space
/// at its end, and a paragraph is its inline content.
pub proof fn simple_blocks_are_lines(p: Page, m: Seq<char>, text: Seq<SpanV>)
    requires
        !p.tight,
    ensures
        ({
            let s = markdown::fresh();
            let rule = markdown::block(p, s, BlockV::Rule, 0);
            let raw = markdown::block(p, s, BlockV::Raw { markdown: m }, 0);
            let par = markdown::block(p, s, BlockV::Paragraph(text), 0);
            &&& !rule.truncated ==> chars::starts_with(rule.out, seq!['-', '-', '-', '\n'])
            &&& !raw.truncated ==> chars::starts_with(raw.out, chars::trim_end(m).push('\n'))
            &&& !par.truncated && !chars::is_blank(ir::plain(text)) ==> chars::starts_with(
                par.out,
                markdown::inline(text).push('\n'),
            )
            &&& chars::is_blank(ir::plain(text)) ==> par == s
        }),
{
    reveal_strlit("---");
    assert("---"@.push('\n') =~= seq!['-', '-', '-', '\n']);
    lemma_first(p, "---"@, false);
    lemma_first(p, chars::trim_end(m), true);
    lemma_first(p, markdown::inline(text), false);
}

/// HTML that Markdown cannot express is written as it is where that is asked for, and
/// else left out with a warning.
pub proof fn html_is_kept_on_request(p: Page, s: Sheet, h: Seq<char>)
    ensures
        p.opts.preserve_unsupported_html ==> markdown::block(
            p,
            s,
            BlockV::RawHtml { html: h },
            0,
        ) == markdown::block(p, s, BlockV::Raw { markdown: h }, 0),
        !p.opts.preserve_unsupported_html ==> markdown::block(
            p,
            s,
            BlockV::RawHtml { html: h },
            0,
        ).out == s.out && markdown::block(p, s, BlockV::RawHtml { html: h }, 0).warnings.len()
            == s.warnings.len() + 1,
{
}

/// A caption stands in bold above its table.
pub proof fn captions_stand_above_their_table(p: Page, t: TableV, caption: Seq<char>)
    requires
        !p.tight,
        t.caption == Some(caption),
        !chars::is_blank(caption),
        !markdown::table(p, markdown::fresh(), t).truncated,
        t.width() == 0,
    ensures
        chars::starts_with(
            markdown::table(p, markdown::fresh(), t).out,
            seq!['*', '*'] + markdown::escape_text(caption) + seq!['*', '*', '\n'],
        ),
{
    reveal_strlit("**");
    reveal_strlit("\n");
    assert("\n"@ =~= seq!['\n']);
    assert("**"@ =~= seq!['*', '*']);
    let s = markdown::fresh();
    let l = "**"@ + markdown::escape_text(caption) + "**"@;
    let u = markdown::line(p, s, l);
    let r = markdown::blank(p, u);
    assert(!u.truncated);
    assert(u.out =~= seq!['*', '*'] + markdown::escape_text(caption) + seq!['*', '*', '\n']);
    assert(r.out.take(u.out.len() as int) =~= u.out);
}

/// The headers of a message that has them all stand in the order of a letter.
pub proof fn headers_stand_in_order(
    m: MessageV,
    from: Seq<char>,
    to: Seq<char>,
    cc: Seq<char>,
    date: Seq<char>,
    subject: Seq<char>,
)
    requires
        m.get("from"@) == Some(from),
        m.get("to"@) == Some(to),
        m.get("cc"@) == Some(cc),
        m.get("date"@) == Some(date),
        m.get("subject"@) == Some(subject),
    ensures
        ({
            let rows = msg::header_rows(m);
            &&& rows.len() == 5
            &&& fidelity::prose::gives(rows[0], "From"@, from)
            &&& fidelity::prose::gives(rows[1], "To"@, to)
            &&& fidelity::prose::gives(rows[2], "Cc"@, cc)
            &&& fidelity::prose::gives(rows[3], "Date"@, date)
            &&& fidelity::prose::gives(rows[4], "Subject"@, subject)
        }),
{
    lemma_header("From"@, from);
    lemma_header("To"@, to);
    lemma_header("Cc"@, cc);
    lemma_header("Date"@, date);
    lemma_header("Subject"@, subject);
}

proof fn lemma_header(label: Seq<char>, v: Seq<char>)
    ensures
        fidelity::prose::gives(
            seq![seq![SpanV::Text(label)], seq![SpanV::Text(converters::spec_squeeze(v))]],
            label,
            v,
        ),
{
    fidelity::lemma_plain_text(label);
    fidelity::lemma_plain_text(converters::spec_squeeze(v));
    converters::squeezing_is_idempotent(v);
}

/// The notes of a slide are read from the part with its number, and quoted behind the
/// slide.
pub proof fn notes_follow_their_slide(
    bytes: Seq<u8>,
    k: nat,
    d: DocumentV,
    c: CxV,
    source: Seq<char>,
)
    requires
        ooxml::spec_read_part(
            bytes,
            "ppt/notesSlides/notesSlide"@ + chars::decimal(k) + ".xml"@,
            c,
        ).0 == Ok::<Option<Seq<char>>, crate::error::ErrorV>(Some(source)),
        xml::spec_fault(source, "pptx"@) is None,
    ensures
        ({
            let texts = ooxml::para_texts(xml::spec_nodes(source));
            let r = ooxml::with_speaker_notes(bytes, k, d, c).0;
            &&& texts.len() == 0 ==> r == Ok::<DocumentV, crate::error::ErrorV>(d)
            &&& texts.len() > 0 ==> (r matches Ok(e) && e.blocks.len() == d.blocks.len() + 1
                && e.blocks.drop_last() == d.blocks && e.blocks.last() == ooxml::notes_quote(texts)
                && e.title == d.title && e.metadata == d.metadata)
        }),
{
    let texts = ooxml::para_texts(xml::spec_nodes(source));
    assert(d.blocks.push(ooxml::notes_quote(texts)).drop_last() =~= d.blocks);
}

/// A page of unknown type is taken for HTML where it begins as HTML does, behind white
/// space and in whatever case.
pub proof fn pages_are_known_by_their_start(
    probe: ProbeV,
    info: StreamInfoV,
    start: Seq<char>,
    rest: Seq<char>,
)
    requires
        probe.looks_textual(),
        info.mimetype is None,
        info.extension is None,
        probe.head.len() <= 256,
        chars::trim_start(crate::bytes::lossy(probe.head)) == start + rest,
        chars::lower(start) == "<!doctype html"@ || chars::lower(start) == "<html"@,
    ensures
        html::html_takes(probe, info),
{
    assert(probe.head.take(probe.head.len() as int) =~= probe.head);
    let t = probe.leading_text(256);
    assert(t =~= chars::lower(start) + chars::lower(rest));
    assert(t.take(start.len() as int) =~= chars::lower(start));
}

/// Audio without a transcript says so, behind what is known of it.
pub proof fn silent_audio_says_so(d: DocumentV)
    ensures
        ({
            let r = media::finish_audio(d);
            &&& r.blocks.len() == d.blocks.len() + 1
            &&& r.blocks.drop_last() == d.blocks
            &&& r.blocks.last() matches BlockV::Paragraph(t) && ir::plain(t)
                == "[audio: no transcript]"@
            &&& r.title == d.title && r.metadata == d.metadata
        }),
{
    fidelity::lemma_plain_text("[audio: no transcript]"@);
    let r = media::finish_audio(d);
    assert(r.blocks.drop_last() =~= d.blocks);
}

/// Text of no known type is plain text; a known type stays.
pub proof fn text_is_plain_unless_typed(charset: Seq<char>, base: StreamInfoV)
    ensures
        ({
            let g = detect::text_guess(Some(charset), base);
            &&& g.len() == 1
            &&& g[0].charset == Some(charset)
            &&& g[0].mimetype == (match base.mimetype {
                Some(m) => Some(m),
                None => Some("text/plain"@),
            })
            &&& g[0].extension == base.extension && g[0].filename == base.filename
        }),
        detect::text_guess(None, base).len() == 0,
{
}

/// The first value that an item of a feed gives for something is the one that counts,
/// and a link goes where its reference says.
pub proof fn items_keep_their_first_values(f: FeedV, n: NodeV)
    requires
        xml::in_entry(n),
    ensures
        ({
            let r = xml::feed_step(f, n);
            let t = chars::words(n.text);
            &&& n.name() == "title"@ ==> r.current.link == f.current.link && r.current.summary
                == f.current.summary && r.current.date == f.current.date && (if f.current.title.len()
                > 0 {
                r.current.title == f.current.title
            } else {
                chars::words(r.current.title) == t
            })
            &&& n.name() == "link"@ ==> r.current.title == f.current.title && r.current.summary
                == f.current.summary && r.current.date == f.current.date && (if f.current.link.len()
                > 0 {
                r.current.link == f.current.link
            } else {
                match n.attr("href"@) {
                    Some(h) => r.current.link == h,
                    None => chars::words(r.current.link) == t,
                }
            })
            &&& n.name() == "description"@ || n.name() == "summary"@ || n.name() == "content"@
                ==> r.current.title == f.current.title && r.current.link == f.current.link
                && r.current.date == f.current.date && (if f.current.summary.len() > 0 {
                r.current.summary == f.current.summary
            } else {
                chars::words(r.current.summary) == t
            })
            &&& n.name() == "pubdate"@ || n.name() == "published"@ || n.name() == "updated"@
                ==> r.current.title == f.current.title && r.current.link == f.current.link
                && r.current.summary == f.current.summary && (if f.current.date.len() > 0 {
                r.current.date == f.current.date
            } else {
                chars::words(r.current.date) == t
            })
        }),
{
    converters::squeezing_is_idempotent(n.text);
    lemma_feed_names();
}

proof fn lemma_feed_names()
    ensures
        "title"@ != "item"@,
        "title"@ != "entry"@,
        "link"@ != "item"@,
        "link"@ != "entry"@,
        "link"@ != "title"@,
        "description"@ != "item"@,
        "description"@ != "entry"@,
        "description"@ != "title"@,
        "description"@ != "link"@,
        "summary"@ != "item"@,
        "summary"@ != "entry"@,
        "summary"@ != "title"@,
        "summary"@ != "link"@,
        "content"@ != "item"@,
        "content"@ != "entry"@,
        "content"@ != "title"@,
        "content"@ != "link"@,
        "pubdate"@ != "item"@,
        "pubdate"@ != "entry"@,
        "pubdate"@ != "title"@,
        "pubdate"@ != "link"@,
        "pubdate"@ != "description"@,
        "pubdate"@ != "summary"@,
        "pubdate"@ != "content"@,
        "published"@ != "item"@,
        "published"@ != "entry"@,
        "published"@ != "title"@,
        "published"@ != "link"@,
        "published"@ != "description"@,
        "published"@ != "summary"@,
        "published"@ != "content"@,
        "updated"@ != "item"@,
        "updated"@ != "entry"@,
        "updated"@ != "title"@,
        "updated"@ != "link"@,
        "updated"@ != "description"@,
        "updated"@ != "summary"@,
        "updated"@ != "content"@,
{
    reveal_strlit("item");
    reveal_strlit("entry");
    reveal_strlit("title");
    reveal_strlit("link");
    reveal_strlit("description");
    reveal_strlit("summary");
    reveal_strlit("content");
    reveal_strlit("pubdate");
    reveal_strlit("published");
    reveal_strlit("updated");
    assert("item"@.len() == 4 && "link"@.len() == 4 && "entry"@.len() == 5 && "title"@.len() == 5
        && "description"@.len() == 11 && "summary"@.len() == 7 && "content"@.len() == 7
        && "pubdate"@.len() == 7 && "published"@.len() == 9 && "updated"@.len() == 7);
    assert("item"@[0] == 'i' && "link"@[0] == 'l' && "entry"@[0] == 'e' && "title"@[0] == 't');
    assert("summary"@[0] == 's' && "content"@[0] == 'c' && "pubdate"@[0] == 'p' && "updated"@[0]
        == 'u');
}

/// A feed's title is the first that stands outside its items.
pub proof fn feeds_keep_their_first_title(f: FeedV, n: NodeV)
    requires
        !xml::in_entry(n),
        n.name() == "title"@,
    ensures
        ({
            let r = xml::feed_step(f, n);
            &&& r.current == f.current && r.entries == f.entries
            &&& f.title is Some ==> r.title == f.title
            &&& f.title is None ==> (r.title matches Some(t) && chars::words(t) == chars::words(
                n.text,
            ))
        }),
{
    converters::squeezing_is_idempotent(n.text);
    lemma_feed_names();
}

/// An item is its title as a heading of the second level, its link to where it goes,
/// its date in italics and its summary.
pub proof fn items_are_laid_out(e: EntryV)
    requires
        e.title.len() > 0,
        e.link.len() > 0,
        e.date.len() > 0,
        e.summary.len() > 0,
    ensures
        ({
            let b = xml::entry_blocks(e);
            &&& b.len() == 4
            &&& b[0] matches BlockV::Heading { level, text } && level == 2 && ir::plain(text)
                == e.title
            &&& b[1] matches BlockV::Paragraph(t) && t.len() == 1 && (t[0] matches SpanV::Link {
                text,
                href,
            } && href == e.link && ir::plain(text) == e.link)
            &&& b[2] matches BlockV::Paragraph(t) && t.len() == 1 && (t[0] matches SpanV::Emphasis(i)
                && ir::plain(i) == e.date)
            &&& b[3] matches BlockV::Paragraph(t) && ir::plain(t) == e.summary
        }),
{
    fidelity::lemma_plain_text(e.title);
    fidelity::lemma_plain_text(e.link);
    fidelity::lemma_plain_text(e.date);
    fidelity::lemma_plain_text(e.summary);
}

/// JSON that is no table is shown as code, laid out where that can be done and else as
/// it was written.
pub proof fn other_json_is_shown_as_code(source: Seq<char>, v: JsonV, max_rows: nat)
    requires
        json::spec_value_to_table(v, max_rows) is None,
    ensures
        json::json_document(source, Ok(v), max_rows) matches Ok(d) && d.blocks.len() == 1 && (
        d.blocks[0] matches BlockV::Code { language, text } && language == Some("json"@) && text
            == (match json::json_pretty(v) {
            Some(p) => p,
            None => source,
        })),
{
}

/// An input is labelled by its type, its extension behind a dot, or both.
pub proof fn labels_show_type_and_extension(i: StreamInfoV, m: Seq<char>, e: Seq<char>)
    ensures
        i.mimetype == Some(m) && i.extension == Some(e) ==> i.label() == m + seq!['/', '.'] + e,
        i.mimetype == Some(m) && i.extension is None ==> i.label() == m,
        i.mimetype is None && i.extension == Some(e) ==> i.label() == seq!['.'] + e,
{
    reveal_strlit("/.");
    reveal_strlit(".");
    assert("/."@ =~= seq!['/', '.']);
    assert("."@ =~= seq!['.']);
}

/// Up to a dozen page numbers are listed; of more, the first dozen and how many are
/// left.
pub proof fn page_lists_name_a_dozen(pages: Seq<usize>)
    ensures
        pages.len() <= 12 ==> pdf::spec_page_list(pages) == chars::join(
            Seq::new(pages.len(), |i: int| chars::decimal(pages[i] as nat)),
            seq![',', ' '],
        ),
        pages.len() > 12 ==> chars::starts_with(
            pdf::spec_page_list(pages),
            pdf::spec_page_list(pages.take(12)),
        ) && chars::ends_with(
            pdf::spec_page_list(pages),
            chars::decimal((pages.len() - 12) as nat) + " more"@,
        ),
{
    reveal_strlit(", ");
    assert(", "@ =~= seq![',', ' ']);
    assert(pdf::numbers(pages) =~= Seq::new(
        pages.len(),
        |i: int| chars::decimal(pages[i] as nat),
    ));
    if pages.len() > 12 {
        let a = pdf::spec_page_list(pages.take(12));
        let z = chars::decimal((pages.len() - 12) as nat) + " more"@;
        let s = pdf::spec_page_list(pages);
        assert(s =~= a + ", … and "@ + z);
        assert(s.take(a.len() as int) =~= a);
        assert(s.skip(s.len() - z.len()) =~= z);
    }
}

/// An error's sentence names the format and gives the reason, and a limit's gives what
/// was asked for and what is allowed.
pub proof fn errors_say_what_is_wrong(
    format: Seq<char>,
    message: Seq<char>,
    actual: u64,
    allowed: u64,
)
    ensures
        ({
            let m = (ErrorV::Malformed { format, message }).message();
            chars::starts_with(m, format) && chars::ends_with(m, message)
        }),
        chars::starts_with((ErrorV::Encrypted { format }).message(), format),
        chars::starts_with((ErrorV::ConverterPanic { format }).message(), format),
        chars::ends_with((ErrorV::InvalidInput(message)).message(), message),
        ({
            let m = (ErrorV::Template { stage: format, message }).message();
            chars::ends_with(m, format + ": "@ + message)
        }),
        ({
            let m = (ErrorV::LimitExceeded { limit: format, actual, allowed }).message();
            chars::ends_with(
                m,
                format + " ("@ + chars::decimal(actual as nat) + " > "@ + chars::decimal(
                    allowed as nat,
                ) + ")"@,
            )
        }),
{
    let a = (ErrorV::Malformed { format, message }).message();
    assert(a.take(format.len() as int) =~= format);
    assert(a.skip(a.len() - message.len()) =~= message);
    let b = (ErrorV::Encrypted { format }).message();
    assert(b.take(format.len() as int) =~= format);
    let c = (ErrorV::ConverterPanic { format }).message();
    assert(c.take(format.len() as int) =~= format);
    let d = (ErrorV::InvalidInput(message)).message();
    assert(d.skip(d.len() - message.len()) =~= message);
    let e = (ErrorV::Template { stage: format, message }).message();
    let f = format + ": "@ + message;
    assert(e.skip(e.len() - f.len()) =~= f);
    let g = (ErrorV::LimitExceeded { limit: format, actual, allowed }).message();
    let h = format + " ("@ + chars::decimal(actual as nat) + " > "@ + chars::decimal(
        allowed as nat,
    ) + ")"@;
    assert(g.skip(g.len() - h.len()) =~= h);
}

/// Where two characters part the sample alike, the comma comes before the others and
/// the semicolon before all but the comma.
pub proof fn ties_go_to_the_comma(s: Seq<char>, n: nat)
    ensures
        ({
            let lines = converters::csv::sample(s);
            converters::csv::spec_sniff_delimiter(s) matches Some(b) ==> (b.1 == n ==> {
                &&& fidelity::inputs::parts_evenly(lines, ',', n) ==> b.0 == ','
                &&& fidelity::inputs::parts_evenly(lines, ';', n) ==> b.0 == ',' || b.0 == ';'
                &&& fidelity::inputs::parts_evenly(lines, '\t', n) ==> b.0 != '|'
            })
        }),
{
    let l = converters::csv::sample(s);
    lemma_steady(l, ',', n);
    lemma_steady(l, ';', n);
    lemma_steady(l, '\t', n);
    lemma_steady(l, '|', n);
}

proof fn lemma_steady(lines: Seq<Seq<char>>, c: char, n: nat)
    ensures
        fidelity::inputs::parts_evenly(lines, c, n) ==> converters::csv::is_steady(lines, c)
            && converters::csv::occurrences(lines[0], c) == n,
{
    if fidelity::inputs::parts_evenly(lines, c, n) {
        assert(converters::csv::occurrences(lines[0], c) == n);
    }
}

} // verus!

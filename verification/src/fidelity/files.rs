//! How whole files come together.

use vstd::prelude::*;
use crate::chars;
use crate::converters;
use crate::converters::builtin;
use crate::converters::builtin::Kind;
use crate::converters::epub;
use crate::converters::json;
use crate::converters::json::JsonV;
use crate::converters::msg;
use crate::converters::ooxml;
use crate::converters::pdf;
use crate::converters::pdf::{PageV, PagesV};
use crate::converters::xml;
use crate::converters::xml::NodeV;
use crate::cx::CxV;
use crate::detect;
use crate::fidelity;
use crate::fidelity::markup;
use crate::fidelity::properties;
use crate::fidelity::tables;
use crate::ir;
use crate::ir::{BlockV, DocumentV, SpanV};
use crate::stream_info::{ProbeV, StreamInfoV};

verus! {

proof fn lemma_notes_grow(
    bytes: Seq<u8>,
    part: Seq<char>,
    label: Seq<char>,
    d: DocumentV,
    c: CxV,
)
    ensures
        ooxml::add_notes(bytes, part, label, d, c).0 matches Ok(e) ==> markup::begins_with(
            e.blocks,
            d.blocks,
        ) && e.title == d.title && e.metadata == d.metadata,
        ooxml::add_notes(bytes, part, label, d, c).0 matches Ok(e) ==> (ooxml::spec_read_part(
            bytes,
            part,
            c,
        ).0 matches Ok(Some(source)) ==> e.blocks == d.blocks + ooxml::notes_blocks(
            label,
            ooxml::para_texts(xml::spec_nodes(source)),
        )),
{
    if let Ok(e) = ooxml::add_notes(bytes, part, label, d, c).0 {
        assert(e.blocks.take(d.blocks.len() as int) =~= d.blocks);
    }
}

/// A Word file is its body, then its footnotes, then its endnotes, with the properties
/// that the container states.
pub proof fn word_files_are_body_and_notes(bytes: Seq<u8>, pre: CxV)
    ensures
        ooxml::docx_result(bytes, pre).0 matches Ok(d) ==> {
            let core = ooxml::spec_core_properties(bytes, ir::empty_document(), pre);
            let rels = ooxml::spec_relationships(bytes, "word/_rels/document.xml.rels"@, core.1);
            let main = ooxml::spec_read_part(bytes, "word/document.xml"@, rels.1);
            let foot = ooxml::spec_read_part(bytes, "word/footnotes.xml"@, main.1);
            let end = ooxml::spec_read_part(bytes, "word/endnotes.xml"@, foot.1);
            &&& core.0.title is Some ==> d.title == core.0.title
            &&& d.metadata == core.0.metadata
            &&& main.0 matches Ok(Some(source)) && {
                let body = ooxml::walk(xml::spec_nodes(source), rels.0).blocks;
                &&& markup::begins_with(d.blocks, body)
                &&& foot.0 == Ok::<Option<Seq<char>>, crate::error::ErrorV>(None) && end.0 == Ok::<
                    Option<Seq<char>>,
                    crate::error::ErrorV,
                >(None) ==> d.blocks == body
                &&& foot.0 matches Ok(Some(notes)) ==> markup::begins_with(
                    d.blocks,
                    body + ooxml::notes_blocks(
                        "Footnotes"@,
                        ooxml::para_texts(xml::spec_nodes(notes)),
                    ),
                )
                &&& foot.0 == Ok::<Option<Seq<char>>, crate::error::ErrorV>(None) ==> (end.0 matches
                    Ok(Some(notes)) ==> d.blocks == body + ooxml::notes_blocks(
                    "Endnotes"@,
                    ooxml::para_texts(xml::spec_nodes(notes)),
                ))
            }
        },
{
    if let Ok(d) = ooxml::docx_result(bytes, pre).0 {
        let core = ooxml::spec_core_properties(bytes, ir::empty_document(), pre);
        let rels = ooxml::spec_relationships(bytes, "word/_rels/document.xml.rels"@, core.1);
        let main = ooxml::spec_read_part(bytes, "word/document.xml"@, rels.1);
        if let Ok(Some(source)) = main.0 {
            let body = ooxml::walk(xml::spec_nodes(source), rels.0).blocks;
            let d0 = DocumentV { blocks: body, ..core.0 };
            lemma_notes_grow(bytes, "word/footnotes.xml"@, "Footnotes"@, d0, main.1);
            let foot = ooxml::add_notes(bytes, "word/footnotes.xml"@, "Footnotes"@, d0, main.1);
            if let Ok(d1) = foot.0 {
                lemma_notes_grow(bytes, "word/endnotes.xml"@, "Endnotes"@, d1, foot.1);
                let end = ooxml::add_notes(bytes, "word/endnotes.xml"@, "Endnotes"@, d1, foot.1);
                if let Ok(d2) = end.0 {
                    markup::lemma_begins(d2.blocks, d1.blocks, body);
                }
            }
        }
    }
}

/// The package of a book is the first that its container names.
pub proof fn books_are_found_by_their_container(
    before: Seq<NodeV>,
    n: NodeV,
    after: Seq<NodeV>,
    path: Seq<char>,
)
    requires
        forall|i: int| 0 <= i < before.len() ==> (#[trigger] before[i]).name() != "rootfile"@,
        n.name() == "rootfile"@,
        n.attr("full-path"@) == Some(path),
    ensures
        epub::rootfile_of(before + seq![n] + after) == Some(path),
    decreases before.len() + after.len(),
{
    let all = before + seq![n] + after;
    if after.len() > 0 {
        books_are_found_by_their_container(before, n, after.drop_last(), path);
        assert(all.drop_last() =~= before + seq![n] + after.drop_last());
    } else {
        assert(all.drop_last() =~= before);
        assert(all.last() == n);
        lemma_no_rootfile(before);
    }
}

proof fn lemma_no_rootfile(nodes: Seq<NodeV>)
    requires
        forall|i: int| 0 <= i < nodes.len() ==> (#[trigger] nodes[i]).name() != "rootfile"@,
    ensures
        epub::rootfile_of(nodes) is None,
    decreases nodes.len(),
{
    if nodes.len() > 0 {
        let fewer = nodes.drop_last();
        assert forall|i: int| 0 <= i < fewer.len() implies (#[trigger] fewer[i]).name()
            != "rootfile"@ by {
            assert(fewer[i] == nodes[i]);
        }
        lemma_no_rootfile(fewer);
        assert(nodes[nodes.len() - 1].name() != "rootfile"@);
    }
}

proof fn lemma_rfind(s: Seq<char>, p: Seq<char>, i: int)
    ensures
        chars::rfind_from(s, p, i) matches Some(k) ==> 0 <= k <= i && chars::matches_at(s, p, k)
            && forall|j: int| k < j <= i ==> !chars::matches_at(s, p, j),
        chars::rfind_from(s, p, i) is None ==> forall|j: int|
            0 <= j <= i ==> !chars::matches_at(s, p, j),
    decreases i + 1,
{
    if i >= 0 && !chars::matches_at(s, p, i) {
        lemma_rfind(s, p, i - 1);
    }
}

/// A path's directory is what stands up to its last slash.
pub proof fn directories_end_with_a_slash(dir: Seq<char>, file: Seq<char>)
    requires
        !file.contains('/'),
    ensures
        epub::dir_of(dir + seq!['/'] + file) == dir + seq!['/'],
        epub::dir_of(file).len() == 0,
{
    reveal_strlit("/");
    let p = "/"@;
    assert(p =~= seq!['/']);
    let s = dir + p + file;
    assert(dir + seq!['/'] + file =~= s);
    let n = dir.len() as int;
    lemma_rfind(s, p, s.len() - 1);
    assert(s.subrange(n, n + 1) =~= p);
    assert(chars::matches_at(s, p, n));
    if let Some(k) = chars::rfind(s, p) {
        if k > n {
            assert(s.subrange(k, k + 1)[0] == s[k]);
            assert(file[k - n - 1] == '/');
        }
        assert(s.take(n) =~= dir);
    }
    lemma_rfind(file, p, file.len() - 1);
    if let Some(k) = chars::rfind(file, p) {
        assert(file.subrange(k, k + 1)[0] == file[k]);
        assert(file.contains('/'));
    }
}

/// A path is resolved name by name.
pub proof fn paths_are_resolved_by_name(parts: Seq<Seq<char>>)
    requires
        parts.len() > 0,
        forall|i: int| 0 <= i < parts.len() ==> !(#[trigger] parts[i]).contains('/'),
    ensures
        epub::spec_normalise(chars::join(parts, seq!['/'])) == chars::join(
            epub::resolved(parts),
            seq!['/'],
        ),
{
    reveal_strlit("/");
    assert("/"@ =~= seq!['/']);
    chars::lemma_split_join(parts, '/');
}

/// Strings as a JSON array.
pub open spec fn as_strings(texts: Seq<Seq<char>>) -> Seq<JsonV> {
    Seq::new(texts.len(), |i: int| JsonV::Str(texts[i]))
}

/// A source that is written as an array of its lines is those lines, one behind the
/// other; one that is written as a string is that string.
pub proof fn sources_are_put_together(texts: Seq<Seq<char>>, s: Seq<char>)
    ensures
        json::spec_join_source(Some(JsonV::Array(as_strings(texts)))) == markup::concat(texts),
        json::spec_join_source(Some(JsonV::Str(s))) == s,
    decreases texts.len(),
{
    if texts.len() > 0 {
        sources_are_put_together(texts.drop_last(), s);
        assert(as_strings(texts).drop_last() =~= as_strings(texts.drop_last()));
    } else {
        assert(as_strings(texts) =~= seq![]);
    }
}

proof fn lemma_strs(texts: Seq<Seq<char>>)
    ensures
        json::strs_of(as_strings(texts)) == texts,
    decreases texts.len(),
{
    if texts.len() > 0 {
        lemma_strs(texts.drop_last());
        assert(as_strings(texts).drop_last() =~= as_strings(texts.drop_last()));
        assert(texts.drop_last().push(texts.last()) =~= texts);
    } else {
        assert(json::strs_of(as_strings(texts)) =~= texts);
    }
}

/// A cell's result shows its plain text, or stands for the picture it is; an error
/// shows its traceback line by line, or its name and value.
pub proof fn outputs_show_their_text(o: JsonV, kind: Seq<char>, t: Seq<char>, lines: Seq<Seq<char>>)
    requires
        o.get("output_type"@) == Some(JsonV::Str(kind)),
    ensures
        (kind == "execute_result"@ || kind == "display_data"@) && json::path2(
            o,
            "data"@,
            "text/plain"@,
        ) == Some(JsonV::Str(t)) && !chars::is_blank(t) ==> json::output_text(o) == t,
        kind == "stream"@ && o.get("text"@) == Some(JsonV::Str(t)) ==> json::output_text(o) == t,
        kind == "error"@ && o.get("traceback"@) == Some(JsonV::Array(as_strings(lines)))
            ==> json::output_text(o) == chars::join(lines, seq!['\n']),
        kind == "error"@ && o.get("traceback"@) is None && o.get("ename"@) == Some(JsonV::Str(t))
            && o.get("evalue"@) is None ==> json::output_text(o) == t + seq![':', ' '],
{
    reveal_strlit("stream");
    reveal_strlit("execute_result");
    reveal_strlit("display_data");
    reveal_strlit("error");
    reveal_strlit("\n");
    reveal_strlit(": ");
    assert("stream"@.len() == 6 && "execute_result"@.len() == 14 && "display_data"@.len() == 12
        && "error"@.len() == 5);
    assert("\n"@ =~= seq!['\n']);
    assert(": "@ =~= seq![':', ' ']);
    lemma_strs(lines);
    assert(t + seq![':', ' '] + seq![] =~= t + seq![':', ' ']);
}

/// A notebook's code is in the language that its kernel names, else in the one that its
/// language information names, else in Python.
pub proof fn notebooks_name_their_language(nb: JsonV, l: Seq<char>)
    ensures
        json::path3(nb, "metadata"@, "kernelspec"@, "language"@) == Some(JsonV::Str(l))
            ==> json::notebook_language(nb) == l,
        json::path3(nb, "metadata"@, "kernelspec"@, "language"@) is None && json::path3(
            nb,
            "metadata"@,
            "language_info"@,
            "name"@,
        ) == Some(JsonV::Str(l)) ==> json::notebook_language(nb) == l,
        json::path3(nb, "metadata"@, "kernelspec"@, "language"@) is None && json::path3(
            nb,
            "metadata"@,
            "language_info"@,
            "name"@,
        ) is None ==> json::notebook_language(nb) == "python"@,
        json::notebook_document(Ok(nb)) matches Ok(d) ==> d.metadata.language == Some(
            json::notebook_language(nb),
        ),
        json::path2(nb, "metadata"@, "title"@) == Some(JsonV::Str(l)) && !chars::is_blank(l) ==> (
        json::notebook_document(Ok(nb)) matches Ok(d) ==> d.title == Some(l)),
{
}

/// A text is decoded under the label it is given, without a mark at its front.
pub proof fn texts_are_decoded_under_their_label(bytes: Seq<u8>, label: Seq<char>, t: Seq<char>)
    requires
        label.len() > 0,
    ensures
        converters::decoded(label, bytes) == Some(t) && (t.len() == 0 || t[0] != '\u{feff}')
            ==> converters::spec_decode_text(bytes, Some(label)) == t,
        converters::decoded(label, bytes) == Some(seq!['\u{feff}'] + t)
            ==> converters::spec_decode_text(bytes, Some(label)) == t,
        converters::decoded(label, bytes) is None && converters::decoded("utf-8"@, bytes) == Some(t)
            && (t.len() == 0 || t[0] != '\u{feff}') ==> converters::spec_decode_text(
            bytes,
            Some(label),
        ) == t,
{
    assert((seq!['\u{feff}'] + t).skip(1) =~= t);
}

/// A line of a section: a number, a space and a title, short, with a letter in it and
/// not ending a clause.
pub open spec fn is_section(number: Seq<char>, title: Seq<char>) -> bool {
    let line = number + seq![' '] + title;
    &&& chars::trim(line) == line
    &&& number.len() > 0
    &&& forall|i: int|
        0 <= i < number.len() ==> chars::is_digit(#[trigger] number[i]) || number[i] == '.'
    &&& exists|i: int| 0 <= i < number.len() && chars::is_digit(#[trigger] number[i])
    &&& !chars::is_blank(title)
    &&& is_short(line)
}

/// Short, with a letter, and not ending a clause.
pub open spec fn is_short(line: Seq<char>) -> bool {
    &&& !line.contains('\n')
    &&& 3 <= chars::byte_len(line) <= 80
    &&& chars::words(line).len() <= 12
    &&& line.len() > 0 && line.last() != '.' && line.last() != ',' && line.last() != ';'
        && line.last() != ':'
    &&& exists|i: int| 0 <= i < line.len() && pdf::alphabetic(#[trigger] line[i])
}

/// A numbered line is a heading one deeper than its number has dots, five at most.
pub proof fn numbered_lines_are_sections(number: Seq<char>, title: Seq<char>)
    requires
        is_section(number, title),
    ensures
        ({
            let dots = converters::csv::occurrences(number, '.');
            pdf::spec_heading_shape(number + seq![' '] + title) == Some(
                if dots < 4 {
                    (dots + 1) as u8
                } else {
                    5u8
                },
            )
        }),
{
    reveal_strlit(" ");
    let p = " "@;
    assert(p =~= seq![' ']);
    let line = number + p + title;
    assert(number + seq![' '] + title =~= line);
    let n = number.len() as int;
    chars::lemma_find_from(line, p, 0);
    assert(line.subrange(n, n + 1) =~= p);
    assert(chars::matches_at(line, p, n));
    if let Some(k) = chars::find(line, p) {
        if k < n {
            assert(line.subrange(k, k + 1)[0] == line[k]);
            assert(number[k] == ' ');
            assert(chars::is_digit(number[k]) || number[k] == '.');
        }
        assert(k == n);
        assert(line.take(n) =~= number);
        assert(line.skip(n + 1) =~= title);
    }
    assert forall|i: int| 0 <= i < number.len() implies pdf::number_char(#[trigger] number[i]) by {
        assert(chars::is_digit(number[i]) || number[i] == '.');
    }
    let w = choose|i: int| 0 <= i < number.len() && chars::is_digit(#[trigger] number[i]);
    assert(chars::is_digit(number[w]));
    assert(chars::split_once(line, p) == Some((number, title)));
    let q = (number, title);
    assert(forall|i: int| 0 <= i < q.0.len() ==> pdf::number_char(#[trigger] q.0[i]));
    assert(chars::is_digit(q.0[w]));
    assert(exists|i: int| 0 <= i < q.0.len() && chars::is_digit(#[trigger] q.0[i]));
    assert(!chars::is_blank(q.1));
    assert(chars::split_once(line, " "@) == Some(q));
    assert(pdf::section_depth(line) == Some(converters::csv::occurrences(number, '.')));
}

/// A short line in capitals is a heading of the second level, and one that is neither
/// numbered nor in capitals is none. A line that is long or ends a clause is none
/// either.
pub proof fn capital_lines_are_headings(line: Seq<char>)
    requires
        chars::trim(line) == line,
    ensures
        is_short(line) && pdf::section_depth(line) is None && (forall|i: int|
            0 <= i < line.len() && pdf::alphabetic(#[trigger] line[i]) ==> pdf::uppercase(line[i]))
            ==> pdf::spec_heading_shape(line) == Some(2u8),
        pdf::section_depth(line) is None && (exists|i: int|
            0 <= i < line.len() && pdf::alphabetic(#[trigger] line[i]) && !pdf::uppercase(line[i]))
            ==> pdf::spec_heading_shape(line) is None,
        !is_short(line) ==> pdf::spec_heading_shape(line) is None,
{
    if line.len() == 0 {
        assert(line =~= seq![]);
        assert(chars::byte_len(line) == 0);
    }
}

/// The lines with the shape of a heading.
pub open spec fn shaped(ls: Seq<Seq<char>>) -> Seq<Seq<char>>
    decreases ls.len(),
{
    if ls.len() == 0 {
        seq![]
    } else if pdf::spec_heading_shape(chars::trim(ls.last())) is Some && !chars::is_blank(
        ls.last(),
    ) {
        shaped(ls.drop_last()).push(ls.last())
    } else {
        shaped(ls.drop_last())
    }
}

proof fn lemma_titles_flushed(p: PageV)
    ensures
        fidelity::titles(p.flushed().blocks) == fidelity::titles(p.blocks),
{
    let joined = pdf::spec_rejoin(chars::join(p.pending, "\n"@));
    tables::lemma_titles_push(p.blocks, BlockV::Paragraph(seq![SpanV::Text(joined)]));
}

proof fn lemma_titles_run(ls: Seq<Seq<char>>, fired: bool)
    ensures
        fidelity::same_words(fidelity::titles(pdf::page_run(ls, fired).blocks), shaped(ls)),
    decreases ls.len(),
{
    if ls.len() > 0 {
        lemma_titles_run(ls.drop_last(), fired);
        let p = pdf::page_run(ls.drop_last(), fired);
        let line = ls.last();
        let t = chars::trim(line);
        lemma_titles_flushed(p);
        if t.len() > 0 {
            if let Some(level) = pdf::spec_heading_shape(t) {
                let q = converters::spec_squeeze(t);
                let h = BlockV::Heading { level, text: seq![SpanV::Text(q)] };
                tables::lemma_titles_push(p.flushed().blocks, h);
                fidelity::lemma_plain_text(q);
                converters::squeezing_is_idempotent(t);
                fidelity::lemma_words_trim(line);
                fidelity::lemma_same_words_push(
                    fidelity::titles(p.blocks),
                    shaped(ls.drop_last()),
                    q,
                    line,
                );
            }
        }
    }
}

/// The headings of a page are its lines with the shape of one, in their order.
pub proof fn shaped_lines_become_headings(page: Seq<char>, fired: bool)
    ensures
        fidelity::same_words(
            fidelity::titles(pdf::spec_page_blocks(page, fired).blocks),
            shaped(chars::lines(page)),
        ),
{
    lemma_titles_run(chars::lines(page), fired);
    lemma_titles_flushed(pdf::page_run(chars::lines(page), fired));
}

/// The numbers of the blank pages from the `i`-th on, counted from one.
pub open spec fn blank_pages(pages: Seq<Seq<char>>, i: int) -> Seq<usize>
    decreases pages.len() - i,
{
    if i < 0 || i >= pages.len() {
        seq![]
    } else if chars::is_blank(pages[i]) {
        seq![(i + 1) as usize] + blank_pages(pages, i + 1)
    } else {
        blank_pages(pages, i + 1)
    }
}

/// The pages without text are noted by their numbers, in their order.
pub proof fn blank_pages_are_noted(pages: Seq<Seq<char>>, i: int, s: PagesV, c: CxV)
    ensures
        pdf::pages_from(pages, i, s, c).0 matches Ok(r) ==> r.empty == s.empty + blank_pages(
            pages,
            i,
        ),
    decreases pages.len() - i,
{
    if 0 <= i < pages.len() {
        let n = chars::byte_len(pages[i]) as u64;
        let after = c.with_budget(c.budget().expand(n));
        if !c.budget().expand_fails(n) {
            if chars::is_blank(pages[i]) {
                let t = PagesV { empty: s.empty.push((i + 1) as usize), ..s };
                blank_pages_are_noted(pages, i + 1, t, after);
                assert(s.empty.push((i + 1) as usize) + blank_pages(pages, i + 1) =~= s.empty + (
                seq![(i + 1) as usize] + blank_pages(pages, i + 1)));
            } else {
                let p = pdf::spec_page_blocks(pages[i], s.fired);
                let t = PagesV { doc: s.doc.extended(p.blocks), fired: p.fired, ..s };
                blank_pages_are_noted(pages, i + 1, t, after);
            }
        }
    } else {
        assert(s.empty + seq![] =~= s.empty);
    }
}

/// A file with blank pages notes which they are and how many pages there are.
pub proof fn blank_pages_are_listed(d: DocumentV, empty: Seq<usize>, total: nat)
    requires
        empty.len() > 0,
        d.metadata.extra.len() == 0,
        !chars::is_blank(chars::join(pdf::numbers(empty), ","@)),
    ensures
        ({
            let r = pdf::with_empty_pages(d, empty, total);
            &&& ir::lookup(r.metadata.extra, "pdf_page_count"@) == Some(chars::decimal(total))
            &&& ir::lookup(r.metadata.extra, "pdf_scanned_pages"@) == Some(
                chars::join(
                    Seq::new(empty.len(), |i: int| chars::decimal(empty[i] as nat)),
                    seq![','],
                ),
            )
            &&& r.blocks == d.blocks
        }),
{
    reveal_strlit(",");
    reveal_strlit("pdf_page_count");
    reveal_strlit("pdf_scanned_pages");
    assert(","@ =~= seq![',']);
    assert("pdf_page_count"@.len() == 14 && "pdf_scanned_pages"@.len() == 17);
    let list = chars::join(pdf::numbers(empty), ","@);
    assert(pdf::numbers(empty) =~= Seq::new(empty.len(), |i: int| chars::decimal(empty[i] as nat)));
    properties::lemma_number_says(total);
    let m = d.metadata;
    properties::lemma_with(m, "pdf_scanned_pages"@, list, "pdf_scanned_pages"@);
    properties::lemma_with(m, "pdf_scanned_pages"@, list, "pdf_page_count"@);
    let m1 = m.with("pdf_scanned_pages"@, list);
    let count = chars::decimal(total);
    properties::lemma_with(m1, "pdf_page_count"@, count, "pdf_scanned_pages"@);
    properties::lemma_with(m1, "pdf_page_count"@, count, "pdf_page_count"@);
}

/// Each format takes what is named for it, where the content can be it.
pub proof fn formats_take_what_is_theirs(probe: ProbeV, info: StreamInfoV)
    ensures
        probe.looks_textual() && info.is_ext("csv"@) ==> builtin::kind_takes(Kind::Csv, probe, info),
        probe.looks_textual() && info.is_ext("json"@) ==> builtin::kind_takes(
            Kind::Json,
            probe,
            info,
        ),
        probe.looks_textual() && info.is_ext("ipynb"@) ==> builtin::kind_takes(
            Kind::Ipynb,
            probe,
            info,
        ) && !builtin::kind_takes(Kind::Json, probe, info),
        probe.looks_textual() && info.is_ext("rss"@) ==> builtin::kind_takes(
            Kind::Feed,
            probe,
            info,
        ) && !builtin::kind_takes(Kind::Xml, probe, info),
        probe.looks_textual() && info.is_ext("xml"@) && info.mimetype is None
            ==> builtin::kind_takes(Kind::Xml, probe, info),
        probe.looks_textual() && info.is_ext("html"@) ==> builtin::kind_takes(
            Kind::Html,
            probe,
            info,
        ),
        probe.looks_textual() && info.mimetype is None ==> builtin::kind_takes(
            Kind::Text,
            probe,
            info,
        ),
        !probe.looks_textual() ==> !builtin::kind_takes(Kind::Text, probe, info)
            && !builtin::kind_takes(Kind::Csv, probe, info) && !builtin::kind_takes(
            Kind::Json,
            probe,
            info,
        ) && !builtin::kind_takes(Kind::Ipynb, probe, info) && !builtin::kind_takes(
            Kind::Xml,
            probe,
            info,
        ) && !builtin::kind_takes(Kind::Feed, probe, info) && !builtin::kind_takes(
            Kind::Html,
            probe,
            info,
        ),
        probe.starts_with(detect::zip_magic()) ==> builtin::kind_takes(Kind::Docx, probe, info) == (
        info.is_ext("docx"@) || info.is_mime(detect::docx_type().0)) && builtin::kind_takes(
            Kind::Pptx,
            probe,
            info,
        ) == (info.is_ext("pptx"@) || info.is_mime(detect::pptx_type().0)) && builtin::kind_takes(
            Kind::Epub,
            probe,
            info,
        ) == (info.is_ext("epub"@) || info.is_mime("application/epub+zip"@)) && (info.is_ext(
            "xlsx"@,
        ) ==> builtin::kind_takes(Kind::Spreadsheet, probe, info)) && (info.is_ext("zip"@)
            ==> builtin::kind_takes(Kind::Zip, probe, info)),
        !probe.starts_with(detect::zip_magic()) ==> !builtin::kind_takes(Kind::Docx, probe, info)
            && !builtin::kind_takes(Kind::Pptx, probe, info) && !builtin::kind_takes(
            Kind::Epub,
            probe,
            info,
        ) && !builtin::kind_takes(Kind::Zip, probe, info),
        probe.starts_with(detect::pdf_magic()) ==> builtin::kind_takes(Kind::Pdf, probe, info),
        probe.starts_with(detect::ole_magic()) && info.is_ext("msg"@) ==> builtin::kind_takes(
            Kind::Msg,
            probe,
            info,
        ),
        !probe.starts_with(detect::ole_magic()) ==> !builtin::kind_takes(Kind::Msg, probe, info),
        !probe.looks_textual() && info.is_ext("png"@) ==> builtin::kind_takes(
            Kind::Image,
            probe,
            info,
        ),
        !probe.looks_textual() && info.is_ext("mp3"@) ==> builtin::kind_takes(
            Kind::Audio,
            probe,
            info,
        ),
{
    reveal_strlit("rss");
    reveal_strlit("atom");
    reveal_strlit("xml");
    reveal_strlit("json");
    reveal_strlit("ipynb");
    assert("json"@.len() == 4 && "ipynb"@.len() == 5);
    assert("rss"@.len() == 3 && "atom"@.len() == 4 && "xml"@.len() == 3 && "rss"@[0] == 'r'
        && "xml"@[0] == 'x');
}

/// A list, a quote and an embedded document count for one and for what they hold; any
/// other block counts for one.
pub proof fn blocks_are_counted(bs: Seq<BlockV>, b: BlockV)
    ensures
        ir::count_blocks(bs.push(b)) == ir::count_blocks(bs) + 1 + (match b {
            BlockV::List { items, .. } => ir::count_items(items),
            BlockV::Quote(inner) => ir::count_blocks(inner),
            BlockV::Embedded { doc, .. } => ir::count_blocks(doc.blocks),
            _ => 0,
        }),
{
    let more = bs.push(b);
    assert(more.drop_last() =~= bs);
    assert(ir::count_blocks(more) == ir::count_blocks(more.drop_last()) + ir::count_block(
        more.last(),
    ));
    assert(ir::count_block(b) == 1 + (match b {
        BlockV::List { items, .. } => ir::count_items(items),
        BlockV::Quote(inner) => ir::count_blocks(inner),
        BlockV::Embedded { doc, .. } => ir::count_blocks(doc.blocks),
        _ => 0,
    }));
}

/// What a message's properties are: each tag names one field.
pub proof fn tags_name_their_field()
    ensures
        msg::field_of("0037"@) == Some("subject"@),
        msg::field_of("1000"@) == Some("body"@),
        msg::field_of("1013"@) == Some("body_html"@),
        msg::field_of("1009"@) == Some("body_rtf"@),
        msg::field_of("0C1A"@) == Some("from"@),
        msg::field_of("0E04"@) == Some("to"@),
        msg::field_of("0E03"@) == Some("cc"@),
        msg::field_of("0E06"@) == Some("date"@),
        msg::field_of("3707"@) == Some("attachment"@),
{
    reveal_strlit("0037");
    reveal_strlit("1000");
    reveal_strlit("1013");
    reveal_strlit("1009");
    reveal_strlit("0C1A");
    reveal_strlit("0065");
    reveal_strlit("0E04");
    reveal_strlit("0E03");
    reveal_strlit("0E06");
    reveal_strlit("3007");
    reveal_strlit("3707");
    assert("0037"@[0] == '0' && "0037"@[1] == '0' && "0037"@[2] == '3' && "0037"@[3] == '7');
    assert("1000"@[0] == '1' && "1000"@[2] == '0' && "1000"@[3] == '0');
    assert("1013"@[0] == '1' && "1013"@[2] == '1' && "1013"@[3] == '3');
    assert("1009"@[0] == '1' && "1009"@[2] == '0' && "1009"@[3] == '9');
    assert("0C1A"@[0] == '0' && "0C1A"@[1] == 'C');
    assert("0065"@[0] == '0' && "0065"@[1] == '0' && "0065"@[2] == '6');
    assert("0E04"@[0] == '0' && "0E04"@[1] == 'E' && "0E04"@[3] == '4');
    assert("0E03"@[0] == '0' && "0E03"@[1] == 'E' && "0E03"@[3] == '3');
    assert("0E06"@[0] == '0' && "0E06"@[1] == 'E' && "0E06"@[3] == '6');
    assert("3007"@[0] == '3' && "3007"@[1] == '0');
    assert("3707"@[0] == '3' && "3707"@[1] == '7');
}

} // verus!

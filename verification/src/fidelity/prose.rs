//! What plain text, notebooks, messages, feeds and archives keep.

use vstd::prelude::*;
use crate::chars;
use crate::converters;
use crate::converters::extract::ExtractedV;
use crate::converters::json;
use crate::converters::json::JsonV;
use crate::converters::msg;
use crate::converters::msg::MessageV;
use crate::converters::text;
use crate::converters::xml;
use crate::converters::xml::{EntryV, NodeV};
use crate::fidelity;
use crate::guarantees;
use crate::ir;
use crate::ir::{BlockV, DocumentV, SpanV};

verus! {

/// A paragraph's line feeds are spaces between its words.
proof fn lemma_one_line(p: Seq<char>)
    ensures
        chars::words(chars::replace(p, "\n"@, " "@)) == chars::words(p),
        !chars::replace(p, "\n"@, " "@).contains('\n'),
{
    reveal_strlit("\n");
    reveal_strlit(" ");
    assert("\n"@ =~= seq!['\n']);
    assert(" "@ =~= seq![' ']);
    let parts = chars::split(p, "\n"@);
    fidelity::lemma_words_join(parts, ' ');
    fidelity::lemma_words_split(p, "\n"@);
    chars::lemma_split_pieces(p, '\n');
    let r = chars::replace(p, "\n"@, " "@);
    if r.contains('\n') {
        chars::lemma_join_chars(parts, " "@, '\n');
        if !" "@.contains('\n') {
            let i = choose|i: int|
                0 <= i < parts.len() && (#[trigger] parts[i]).contains('\n');
            let j = parts[i].index_of('\n');
            assert(parts[i][j] != '\n');
        }
    }
}

proof fn lemma_para_blocks(parts: Seq<Seq<char>>)
    ensures
        ({
            let texts = fidelity::block_texts(converters::para_blocks(parts));
            &&& fidelity::all_words(texts) == fidelity::all_words(parts)
            &&& forall|k: int|
                0 <= k < texts.len() ==> !(#[trigger] texts[k]).contains('\n') && !chars::is_blank(
                    texts[k],
                )
        }),
    decreases parts.len(),
{
    let bs = converters::para_blocks(parts);
    let texts = fidelity::block_texts(bs);
    if parts.len() == 0 {
        assert(texts =~= seq![]);
    } else {
        let before = converters::para_blocks(parts.drop_last());
        let old_texts = fidelity::block_texts(before);
        lemma_para_blocks(parts.drop_last());
        let p = chars::trim(parts.last());
        fidelity::lemma_words_trim(parts.last());
        if p.len() == 0 {
            assert(chars::words(p) =~= seq![]);
            assert(fidelity::all_words(old_texts) + chars::words(parts.last())
                =~= fidelity::all_words(old_texts));
        } else {
            let t = chars::replace(p, "\n"@, " "@);
            let b = BlockV::Paragraph(seq![SpanV::Text(t)]);
            lemma_one_line(p);
            fidelity::lemma_plain_text(t);
            fidelity::lemma_block_texts_push(before, b);
            assert(fidelity::texts_of(b) == seq![t]);
            assert(texts =~= old_texts.push(t));
            assert(texts.drop_last() =~= old_texts);
            fidelity::lemma_squeeze_blank(parts.last());
            fidelity::lemma_squeeze_blank(t);
            assert forall|k: int| 0 <= k < texts.len() implies !(#[trigger] texts[k]).contains(
                '\n',
            ) && !chars::is_blank(texts[k]) by {
                if k < old_texts.len() {
                    assert(texts[k] == old_texts[k]);
                }
            }
        }
    }
}

/// The paragraphs of a text hold its words, in its order, each paragraph on one
/// line.
pub proof fn texts_keep_their_words(s: Seq<char>)
    ensures
        ({
            let texts = fidelity::block_texts(converters::spec_paragraphs(s));
            &&& fidelity::all_words(texts) == chars::words(s)
            &&& forall|k: int|
                0 <= k < texts.len() ==> !(#[trigger] texts[k]).contains('\n') && !chars::is_blank(
                    texts[k],
                )
        }),
        fidelity::all_words(fidelity::block_texts(text::text_document(s, false).blocks))
            == chars::words(s),
{
    reveal_strlit("\n\n");
    lemma_para_blocks(chars::split(s, "\n\n"@));
    fidelity::lemma_words_split(s, "\n\n"@);
    assert(text::text_document(s, false).blocks =~= converters::spec_paragraphs(s));
}

/// The first empty line behind a text without one, or in it.
proof fn lemma_find_in_front(a: Seq<char>, b: Seq<char>)
    requires
        a.len() == 0 || a.last() != '\n',
    ensures
        chars::find(a + "\n\n"@ + b, "\n\n"@) == (match chars::find(a, "\n\n"@) {
            Some(i) => Some(i),
            None => Some(a.len() as int),
        }),
{
    reveal_strlit("\n\n");
    let p = "\n\n"@;
    let s = a + p + b;
    let n = a.len() as int;
    chars::lemma_find_from(s, p, 0);
    chars::lemma_find_from(a, p, 0);
    assert(s.subrange(n, n + 2) =~= p);
    assert(chars::matches_at(s, p, n));
    match chars::find(a, p) {
        Some(i) => {
            assert(s.subrange(i, i + 2) =~= a.subrange(i, i + 2));
            assert(chars::matches_at(s, p, i));
            let k = chars::find(s, p)->Some_0;
            if k < i {
                assert(s.subrange(k, k + 2) =~= a.subrange(k, k + 2));
                assert(chars::matches_at(a, p, k));
            }
        },
        None => {
            let k = chars::find(s, p)->Some_0;
            if k < n {
                if k + 2 <= n {
                    assert(s.subrange(k, k + 2) =~= a.subrange(k, k + 2));
                    assert(chars::matches_at(a, p, k));
                } else {
                    assert(s.subrange(k, k + 2)[0] == a[k]);
                    assert(a.last() == a[k]);
                }
            }
        },
    }
}

proof fn lemma_split_at_empty_line(a: Seq<char>, b: Seq<char>)
    requires
        a.len() == 0 || a.last() != '\n',
    ensures
        chars::split(a + "\n\n"@ + b, "\n\n"@) == chars::split(a, "\n\n"@) + chars::split(
            b,
            "\n\n"@,
        ),
    decreases a.len(),
{
    reveal_strlit("\n\n");
    let p = "\n\n"@;
    let s = a + p + b;
    lemma_find_in_front(a, b);
    chars::lemma_find_from(a, p, 0);
    match chars::find(a, p) {
        Some(i) => {
            let rest = a.skip(i + 2);
            if rest.len() == 0 {
                assert(a.subrange(i, i + 2)[1] == a.last());
            }
            assert(rest.len() == 0 || rest.last() == a.last());
            lemma_split_at_empty_line(rest, b);
            assert(s.take(i) =~= a.take(i));
            assert(s.skip(i + 2) =~= rest + p + b);
            assert(chars::split(s, p) =~= chars::split(a, p) + chars::split(b, p));
        },
        None => {
            let n = a.len() as int;
            assert(s.take(n) =~= a);
            assert(s.skip(n + 2) =~= b);
            assert(chars::split(a, p) =~= seq![a]);
        },
    }
}

proof fn lemma_para_blocks_concat(a: Seq<Seq<char>>, b: Seq<Seq<char>>)
    ensures
        converters::para_blocks(a + b) == converters::para_blocks(a) + converters::para_blocks(b),
    decreases b.len(),
{
    if b.len() == 0 {
        assert(a + b =~= a);
        assert(converters::para_blocks(a) + converters::para_blocks(b)
            =~= converters::para_blocks(a));
    } else {
        lemma_para_blocks_concat(a, b.drop_last());
        assert((a + b).drop_last() =~= a + b.drop_last());
        assert(converters::para_blocks(a + b) =~= converters::para_blocks(a)
            + converters::para_blocks(b));
    }
}

/// An empty line parts paragraphs: what stands before it and what stands behind it
/// make their own. A text without one is one paragraph at most.
pub proof fn empty_lines_part_paragraphs(a: Seq<char>, b: Seq<char>)
    requires
        a.len() == 0 || a.last() != '\n',
    ensures
        converters::spec_paragraphs(a + "\n\n"@ + b) == converters::spec_paragraphs(a)
            + converters::spec_paragraphs(b),
        !chars::contains(a, "\n\n"@) ==> converters::spec_paragraphs(a).len() == (
        if chars::is_blank(a) {
            0nat
        } else {
            1
        }),
{
    lemma_split_at_empty_line(a, b);
    lemma_para_blocks_concat(chars::split(a, "\n\n"@), chars::split(b, "\n\n"@));
    if !chars::contains(a, "\n\n"@) {
        let one = seq![a];
        assert(chars::split(a, "\n\n"@) == one);
        assert(one.drop_last() =~= seq![]);
        assert(converters::para_blocks(one.drop_last()) =~= seq![]);
    }
}

/// `t` is `s` without white space at its end.
pub open spec fn is_cut_at_the_end(t: Seq<char>, s: Seq<char>) -> bool {
    &&& t.len() <= s.len()
    &&& s.take(t.len() as int) == t
    &&& forall|i: int| t.len() <= i < s.len() ==> chars::is_space(#[trigger] s[i])
    &&& t.len() > 0 ==> !chars::is_space(t.last())
}

pub proof fn lemma_cut_at_the_end(s: Seq<char>)
    ensures
        is_cut_at_the_end(chars::trim_end(s), s),
    decreases s.len(),
{
    if s.len() > 0 && chars::is_space(s.last()) {
        let u = s.drop_last();
        lemma_cut_at_the_end(u);
        let t = chars::trim_end(u);
        assert(s.take(t.len() as int) =~= u.take(t.len() as int));
        assert forall|i: int| t.len() <= i < s.len() implies chars::is_space(#[trigger] s[i]) by {
            if i < u.len() {
                assert(u[i] == s[i]);
            }
        }
    } else {
        assert(s.take(s.len() as int) =~= s);
    }
}

/// Markdown stays as it is, but for white space at its end.
pub proof fn markdown_stays_as_it_is(s: Seq<char>)
    ensures
        ({
            let d = text::text_document(s, true);
            &&& chars::is_blank(s) ==> d.blocks.len() == 0
            &&& !chars::is_blank(s) ==> d.blocks.len() == 1 && (d.blocks[0] matches BlockV::Raw {
                markdown,
            } && is_cut_at_the_end(markdown, s))
        }),
{
    lemma_cut_at_the_end(s);
}

/// What the host makes of a page's HTML stays as it is, but for white space at its
/// ends.
pub proof fn pages_keep_their_markdown(html: Seq<char>, m: Seq<char>)
    ensures
        ({
            let r = converters::html::html_document(html, ExtractedV::Ready(m));
            &&& r is Ok
            &&& chars::is_blank(m) ==> r->Ok_0.blocks.len() == 0 && r->Ok_0.warnings.len() > 0
            &&& !chars::is_blank(m) ==> r->Ok_0.blocks.len() == 1 && (
            r->Ok_0.blocks[0] matches BlockV::Raw { markdown } && (exists|i: int, j: int|
                0 <= i <= j <= m.len() && markdown == #[trigger] m.subrange(i, j)) && chars::words(
                markdown,
            ) == chars::words(m))
        }),
{
    guarantees::lemma_trim_parts(m);
    fidelity::lemma_words_trim(m);
}

/// A cell of a notebook with this type and this source.
pub open spec fn is_cell(cell: JsonV, kind: Seq<char>, source: Seq<char>) -> bool {
    cell.get("cell_type"@) == Some(JsonV::Str(kind)) && cell.get("source"@) == Some(
        JsonV::Str(source),
    )
}

/// A cell's source is shown: Markdown as it is, code as code in the notebook's
/// language, raw text as code in none. A blank one is left out.
pub proof fn cells_keep_their_source(cell: JsonV, language: Seq<char>, source: Seq<char>)
    requires
        !chars::is_blank(source),
    ensures
        is_cell(cell, "markdown"@, source) ==> {
            let b = json::cell_blocks(cell, language);
            b.len() == 1 && (b[0] matches BlockV::Raw { markdown } && is_cut_at_the_end(
                markdown,
                source,
            ))
        },
        is_cell(cell, "code"@, source) ==> {
            let b = json::cell_blocks(cell, language);
            b.len() >= 1 && b[0] == (BlockV::Code { language: Some(language), text: source })
        },
        is_cell(cell, "raw"@, source) ==> json::cell_blocks(cell, language) == seq![
            BlockV::Code { language: None, text: source },
        ],
{
    reveal_strlit("markdown");
    reveal_strlit("code");
    reveal_strlit("raw");
    assert("markdown"@.len() == 8 && "code"@.len() == 4 && "raw"@.len() == 3);
    lemma_cut_at_the_end(source);
}

/// A notebook is read cell by cell.
pub proof fn cells_follow_each_other(a: Seq<JsonV>, b: Seq<JsonV>, language: Seq<char>)
    ensures
        json::cells_blocks(a + b, language) == json::cells_blocks(a, language)
            + json::cells_blocks(b, language),
        a.len() == 1 ==> json::cells_blocks(a, language) == json::cell_blocks(a[0], language),
    decreases b.len(),
{
    if b.len() == 0 {
        assert(a + b =~= a);
        assert(json::cells_blocks(a, language) + json::cells_blocks(b, language)
            =~= json::cells_blocks(a, language));
    } else {
        cells_follow_each_other(a, b.drop_last(), language);
        assert((a + b).drop_last() =~= a + b.drop_last());
        let x = json::cell_blocks(b.last(), language);
        assert(json::cells_blocks(a, language) + json::cells_blocks(b.drop_last(), language) + x
            =~= json::cells_blocks(a, language) + (json::cells_blocks(b.drop_last(), language)
            + x));
    }
    if a.len() == 1 {
        assert(a.drop_last() =~= seq![]);
        assert(json::cells_blocks(a.drop_last(), language) =~= seq![]);
        assert(json::cells_blocks(a, language) =~= json::cell_blocks(a[0], language));
    }
}

/// A stream of output with this text.
pub open spec fn is_stream(o: JsonV, t: Seq<char>) -> bool {
    o.get("output_type"@) == Some(JsonV::Str("stream"@)) && o.get("text"@) == Some(JsonV::Str(t))
}

/// What a cell printed is shown stream by stream, in their order.
pub proof fn outputs_keep_their_text(outs: Seq<JsonV>, texts: Seq<Seq<char>>)
    requires
        outs.len() == texts.len(),
        forall|k: int|
            0 <= k < outs.len() ==> is_stream(#[trigger] outs[k], texts[k]) && !chars::is_blank(
                texts[k],
            ),
    ensures
        ({
            let b = json::output_blocks(outs);
            b.len() == texts.len() && forall|k: int|
                0 <= k < texts.len() ==> (#[trigger] b[k] matches BlockV::Code { text, .. }
                    && is_cut_at_the_end(text, texts[k]))
        }),
    decreases outs.len(),
{
    if outs.len() > 0 {
        let before = outs.drop_last();
        let old_texts = texts.drop_last();
        assert forall|k: int| 0 <= k < before.len() implies is_stream(
            #[trigger] before[k],
            old_texts[k],
        ) && !chars::is_blank(old_texts[k]) by {
            assert(is_stream(outs[k], texts[k]));
        }
        outputs_keep_their_text(before, old_texts);
        let n = outs.len() - 1;
        assert(is_stream(outs[n], texts[n]));
        lemma_cut_at_the_end(texts[n]);
        let b = json::output_blocks(outs);
        let c = json::output_blocks(before);
        assert forall|k: int| 0 <= k < texts.len() implies (#[trigger] b[k] matches BlockV::Code {
            text,
            ..
        } && is_cut_at_the_end(text, texts[k])) by {
            if k < c.len() {
                assert(b[k] == c[k]);
                assert(texts[k] == old_texts[k]);
            }
        }
    }
}

/// A code cell's outputs follow its source.
pub proof fn outputs_follow_their_cell(
    cell: JsonV,
    language: Seq<char>,
    source: Seq<char>,
    outs: Seq<JsonV>,
)
    requires
        is_cell(cell, "code"@, source),
        !chars::is_blank(source),
        cell.get("outputs"@) == Some(JsonV::Array(outs)),
    ensures
        json::cell_blocks(cell, language).skip(1) == json::output_blocks(outs),
{
    reveal_strlit("markdown");
    reveal_strlit("code");
    assert("markdown"@.len() == 8 && "code"@.len() == 4);
    let b = json::cell_blocks(cell, language);
    assert(b.skip(1) =~= json::output_blocks(outs));
}

/// The row gives the label and the words of the value.
pub open spec fn gives(row: Seq<Seq<SpanV>>, label: Seq<char>, value: Seq<char>) -> bool {
    row.len() == 2 && ir::plain(row[0]) == label && chars::words(ir::plain(row[1]))
        == chars::words(value)
}

pub open spec fn has_row(
    rows: Seq<Seq<Seq<SpanV>>>,
    label: Seq<char>,
    value: Seq<char>,
) -> bool {
    exists|i: int| 0 <= i < rows.len() && gives(#[trigger] rows[i], label, value)
}

proof fn lemma_header_row(m: MessageV, label: Seq<char>, key: Seq<char>)
    ensures
        ({
            let r = msg::header_row(m, label, key);
            match m.get(key) {
                Some(v) => r.len() == 1 && gives(r[0], label, v),
                None => r.len() == 0,
            }
        }),
{
    if let Some(v) = m.get(key) {
        fidelity::lemma_plain_text(label);
        fidelity::lemma_plain_text(converters::spec_squeeze(v));
        converters::squeezing_is_idempotent(v);
    }
}

/// How many of the fields the message has.
pub open spec fn count_fields(m: MessageV, keys: Seq<Seq<char>>) -> nat
    decreases keys.len(),
{
    if keys.len() == 0 {
        0
    } else {
        count_fields(m, keys.drop_last()) + (if m.get(keys.last()) is Some {
            1nat
        } else {
            0
        })
    }
}

/// The headers of a message are a table with a row for each field that it has: whom
/// it is from and to, who has a copy, its date and its subject.
pub proof fn messages_keep_their_headers(m: MessageV)
    ensures
        ({
            let rows = msg::header_rows(m);
            &&& m.get("from"@) matches Some(v) ==> has_row(rows, "From"@, v)
            &&& m.get("to"@) matches Some(v) ==> has_row(rows, "To"@, v)
            &&& m.get("cc"@) matches Some(v) ==> has_row(rows, "Cc"@, v)
            &&& m.get("date"@) matches Some(v) ==> has_row(rows, "Date"@, v)
            &&& m.get("subject"@) matches Some(v) ==> has_row(rows, "Subject"@, v)
            &&& rows.len() == count_fields(
                m,
                seq!["from"@, "to"@, "cc"@, "date"@, "subject"@],
            )
        }),
{
    let a = msg::header_row(m, "From"@, "from"@);
    let b = msg::header_row(m, "To"@, "to"@);
    let c = msg::header_row(m, "Cc"@, "cc"@);
    let d = msg::header_row(m, "Date"@, "date"@);
    let e = msg::header_row(m, "Subject"@, "subject"@);
    lemma_header_row(m, "From"@, "from"@);
    lemma_header_row(m, "To"@, "to"@);
    lemma_header_row(m, "Cc"@, "cc"@);
    lemma_header_row(m, "Date"@, "date"@);
    lemma_header_row(m, "Subject"@, "subject"@);
    let rows = msg::header_rows(m);
    assert(rows == a + b + c + d + e);
    if let Some(v) = m.get("from"@) {
        assert(rows[0] == a[0]);
        assert(gives(rows[0], "From"@, v));
    }
    if let Some(v) = m.get("to"@) {
        let i = a.len() as int;
        assert(rows[i] == b[0]);
        assert(gives(rows[i], "To"@, v));
    }
    if let Some(v) = m.get("cc"@) {
        let i = (a.len() + b.len()) as int;
        assert(rows[i] == c[0]);
        assert(gives(rows[i], "Cc"@, v));
    }
    if let Some(v) = m.get("date"@) {
        let i = (a.len() + b.len() + c.len()) as int;
        assert(rows[i] == d[0]);
        assert(gives(rows[i], "Date"@, v));
    }
    if let Some(v) = m.get("subject"@) {
        let i = (a.len() + b.len() + c.len() + d.len()) as int;
        assert(rows[i] == e[0]);
        assert(gives(rows[i], "Subject"@, v));
    }
    let k5 = seq!["from"@, "to"@, "cc"@, "date"@, "subject"@];
    let k4 = seq!["from"@, "to"@, "cc"@, "date"@];
    let k3 = seq!["from"@, "to"@, "cc"@];
    let k2 = seq!["from"@, "to"@];
    let k1 = seq!["from"@];
    assert(k5.drop_last() =~= k4);
    assert(k4.drop_last() =~= k3);
    assert(k3.drop_last() =~= k2);
    assert(k2.drop_last() =~= k1);
    assert(k1.drop_last() =~= seq![]);
    assert(count_fields(m, k1.drop_last()) == 0);
    assert(count_fields(m, k1) == a.len());
    assert(count_fields(m, k2) == a.len() + b.len());
    assert(count_fields(m, k3) == a.len() + b.len() + c.len());
    assert(count_fields(m, k4) == a.len() + b.len() + c.len() + d.len());
}

/// A message's body follows everything else and keeps its words.
pub proof fn messages_keep_their_body(m: MessageV, body: Seq<char>)
    requires
        m.get("body"@) == Some(body),
    ensures
        msg::message_document(m) matches Ok(d) ==> exists|n: int|
            0 <= n <= d.blocks.len() && fidelity::all_words(
                fidelity::block_texts(#[trigger] d.blocks.skip(n)),
            ) == chars::words(body) && forall|k: int|
                n <= k < d.blocks.len() ==> (#[trigger] d.blocks[k]) is Paragraph,
        msg::message_document(m) is Ok,
{
    texts_keep_their_words(body);
    let ps = converters::spec_paragraphs(body);
    lemma_only_paragraphs(chars::split(body, "\n\n"@));
    if let Ok(d) = msg::message_document(m) {
        let n = d.blocks.len() - ps.len();
        assert(d.blocks.skip(n) =~= ps);
        assert forall|k: int| n <= k < d.blocks.len() implies (#[trigger] d.blocks[k])
            is Paragraph by {
            assert(d.blocks[k] == ps[k - n]);
        }
    }
}

proof fn lemma_only_paragraphs(parts: Seq<Seq<char>>)
    ensures
        forall|k: int|
            0 <= k < converters::para_blocks(parts).len() ==> (
            #[trigger] converters::para_blocks(parts)[k]) is Paragraph,
    decreases parts.len(),
{
    if parts.len() > 0 {
        lemma_only_paragraphs(parts.drop_last());
    }
}

/// Where a message has several values for a field, the first that is not blank counts;
/// attachments are all kept, in their order.
pub proof fn first_values_count(m: MessageV, field: Seq<char>, a: Seq<char>, b: Seq<char>)
    requires
        !chars::is_blank(a),
    ensures
        field != "attachment"@ && m.get(field) is None ==> m.with(field, a).with(field, b).get(
            field,
        ) == Some(a),
        field == "attachment"@ && !chars::is_blank(b) ==> {
            let r = m.with(field, a).with(field, b).attachments;
            let n = m.attachments.len() as int;
            &&& r.len() == n + 2
            &&& r.take(n) == m.attachments
            &&& chars::words(r[n]) == chars::words(a)
            &&& chars::words(r[n + 1]) == chars::words(b)
        },
{
    converters::squeezing_is_idempotent(a);
    converters::squeezing_is_idempotent(b);
    if field != "attachment"@ && m.get(field) is None {
        lemma_lookup_push(m.props, field, a);
    }
    if field == "attachment"@ && !chars::is_blank(b) {
        let n = m.attachments.len() as int;
        let r = m.with(field, a).with(field, b).attachments;
        assert(r.take(n) =~= m.attachments);
    }
}

proof fn lemma_lookup_push(s: Seq<(Seq<char>, Seq<char>)>, key: Seq<char>, v: Seq<char>)
    requires
        ir::lookup(s, key) is None,
    ensures
        ir::lookup(s.push((key, v)), key) == Some(v),
    decreases s.len(),
{
    let t = s.push((key, v));
    if s.len() == 0 {
        assert(t[0] == (key, v));
    } else {
        assert(t[0] == s[0]);
        assert(t.skip(1) =~= s.skip(1).push((key, v)));
        lemma_lookup_push(s.skip(1), key, v);
    }
}

/// A converted member stands behind what there is, under its name, with all of its
/// blocks; its warnings follow the archive's.
pub proof fn members_keep_their_content(d: DocumentV, name: Seq<char>, inner: DocumentV)
    ensures
        ({
            let r = converters::zip::member_added(d, name, Ok(inner));
            &&& fidelity::block_texts(r.blocks) == fidelity::block_texts(d.blocks) + (seq![name]
                + fidelity::block_texts(inner.blocks))
            &&& r.blocks.drop_last() == d.blocks
            &&& r.blocks.last() matches BlockV::Embedded { name: n, doc } && n == name
                && doc.blocks == inner.blocks && doc.title == inner.title && doc.metadata
                == inner.metadata
            &&& r.warnings == d.warnings + inner.warnings
            &&& r.title == d.title
        }),
{
    let r = converters::zip::member_added(d, name, Ok(inner));
    let b = r.blocks.last();
    fidelity::lemma_block_texts_push(d.blocks, b);
    assert(r.blocks =~= d.blocks.push(b));
    assert(r.blocks.drop_last() =~= d.blocks);
    assert(fidelity::texts_of(b) == seq![name] + fidelity::block_texts(inner.blocks));
}

/// The elements of one item of a feed.
pub struct ItemNodes {
    pub title: NodeV,
    pub link: NodeV,
    pub date: NodeV,
    pub summary: NodeV,
    pub end: NodeV,
}

/// The item is complete: each of its elements says something.
pub open spec fn is_item(i: ItemNodes) -> bool {
    &&& i.title.name() == "title"@ && xml::in_entry(i.title) && !chars::is_blank(i.title.text)
    &&& i.link.name() == "link"@ && xml::in_entry(i.link) && i.link.attr("href"@) is None
        && !chars::is_blank(i.link.text)
    &&& i.date.name() == "pubdate"@ && xml::in_entry(i.date) && !chars::is_blank(i.date.text)
    &&& i.summary.name() == "description"@ && xml::in_entry(i.summary) && !chars::is_blank(
        i.summary.text,
    )
    &&& i.end.name() == "item"@
}

/// The elements of the items, in the order of the feed.
pub open spec fn item_nodes(items: Seq<ItemNodes>) -> Seq<NodeV>
    decreases items.len(),
{
    if items.len() == 0 {
        seq![]
    } else {
        let i = items.last();
        item_nodes(items.drop_last()).push(i.title).push(i.link).push(i.date).push(i.summary).push(
            i.end,
        )
    }
}

/// The texts of the items, in the order of the feed.
pub open spec fn item_words(items: Seq<ItemNodes>) -> Seq<Seq<char>>
    decreases items.len(),
{
    if items.len() == 0 {
        seq![]
    } else {
        let i = items.last();
        item_words(items.drop_last()).push(i.title.text).push(i.link.text).push(i.date.text).push(
            i.summary.text,
        )
    }
}

proof fn lemma_feed_push(nodes: Seq<NodeV>, n: NodeV)
    ensures
        xml::feed_run(nodes.push(n)) == xml::feed_step(xml::feed_run(nodes), n),
{
    assert(nodes.push(n).drop_last() =~= nodes);
}

spec fn entry_of(i: ItemNodes) -> EntryV {
    EntryV {
        title: converters::spec_squeeze(i.title.text),
        link: converters::spec_squeeze(i.link.text),
        date: converters::spec_squeeze(i.date.text),
        summary: converters::spec_squeeze(i.summary.text),
    }
}

proof fn lemma_feed_names()
    ensures
        "title"@ != "item"@,
        "title"@ != "entry"@,
        "link"@ != "item"@,
        "link"@ != "entry"@,
        "link"@ != "title"@,
        "pubdate"@ != "item"@,
        "pubdate"@ != "entry"@,
        "pubdate"@ != "title"@,
        "pubdate"@ != "link"@,
        "pubdate"@ != "description"@,
        "pubdate"@ != "summary"@,
        "pubdate"@ != "content"@,
        "description"@ != "item"@,
        "description"@ != "entry"@,
        "description"@ != "title"@,
        "description"@ != "link"@,
{
    reveal_strlit("title");
    reveal_strlit("item");
    reveal_strlit("entry");
    reveal_strlit("link");
    reveal_strlit("pubdate");
    reveal_strlit("description");
    reveal_strlit("summary");
    reveal_strlit("content");
    assert("title"@.len() == 5 && "entry"@.len() == 5 && "item"@.len() == 4 && "link"@.len() == 4);
    assert("pubdate"@.len() == 7 && "summary"@.len() == 7 && "content"@.len() == 7
        && "description"@.len() == 11);
    assert("title"@[0] == 't' && "entry"@[0] == 'e' && "item"@[0] == 'i' && "link"@[0] == 'l');
    assert("pubdate"@[0] == 'p' && "summary"@[0] == 's' && "content"@[0] == 'c');
}

proof fn lemma_feed_items(items: Seq<ItemNodes>)
    requires
        forall|k: int| 0 <= k < items.len() ==> is_item(#[trigger] items[k]),
    ensures
        xml::feed_run(item_nodes(items)).current == xml::no_entry(),
        xml::feed_run(item_nodes(items)).entries.len() == items.len(),
        forall|k: int|
            0 <= k < items.len() ==> #[trigger] xml::feed_run(item_nodes(items)).entries[k]
                == entry_of(items[k]),
    decreases items.len(),
{
    if items.len() > 0 {
        let before = items.drop_last();
        assert forall|k: int| 0 <= k < before.len() implies is_item(#[trigger] before[k]) by {
            assert(before[k] == items[k]);
        }
        lemma_feed_items(before);
        let i = items[items.len() - 1];
        assert(is_item(i));
        lemma_feed_names();
        let n0 = item_nodes(before);
        let n1 = n0.push(i.title);
        let n2 = n1.push(i.link);
        let n3 = n2.push(i.date);
        let n4 = n3.push(i.summary);
        lemma_feed_push(n0, i.title);
        lemma_feed_push(n1, i.link);
        lemma_feed_push(n2, i.date);
        lemma_feed_push(n3, i.summary);
        lemma_feed_push(n4, i.end);
        fidelity::lemma_squeeze_blank(i.title.text);
        fidelity::lemma_squeeze_blank(i.link.text);
        fidelity::lemma_squeeze_blank(i.date.text);
        fidelity::lemma_squeeze_blank(i.summary.text);
        let f0 = xml::feed_run(n0);
        let e = entry_of(i);
        let f1 = xml::feed_run(n1);
        assert(f1.current == (EntryV { title: e.title, ..xml::no_entry() }));
        assert(f1.entries == f0.entries);
        let f2 = xml::feed_run(n2);
        assert(f2.current == (EntryV { link: e.link, ..f1.current }));
        assert(f2.entries == f0.entries);
        let f3 = xml::feed_run(n3);
        assert(f3.current == (EntryV { date: e.date, ..f2.current }));
        assert(f3.entries == f0.entries);
        let f4 = xml::feed_run(n4);
        assert(f4.current == e);
        assert(f4.entries == f0.entries);
        let all = xml::feed_run(item_nodes(items)).entries;
        assert(all == f0.entries.push(e));
        assert forall|k: int| 0 <= k < items.len() implies #[trigger] all[k] == entry_of(
            items[k],
        ) by {
            if k < before.len() {
                assert(all[k] == f0.entries[k]);
            }
        }
    }
}

proof fn lemma_entry_texts(e: EntryV)
    requires
        e.title.len() > 0,
        e.link.len() > 0,
        e.date.len() > 0,
        e.summary.len() > 0,
    ensures
        fidelity::block_texts(xml::entry_blocks(e)) == seq![e.title, e.link, e.date, e.summary],
        xml::entry_blocks(e).len() == 4,
        xml::entry_blocks(e)[0] is Heading,
        xml::entry_blocks(e)[1] matches BlockV::Paragraph(t) && t.len() == 1 && (
        t[0] matches SpanV::Link { href, .. } && href == e.link),
{
    let none = Seq::<BlockV>::empty();
    let a = BlockV::Heading { level: 2, text: seq![SpanV::Text(e.title)] };
    let link = SpanV::Link { text: seq![SpanV::Text(e.link)], href: e.link };
    let b = BlockV::Paragraph(seq![link]);
    let em = SpanV::Emphasis(seq![SpanV::Text(e.date)]);
    let c = BlockV::Paragraph(seq![em]);
    let d = BlockV::Paragraph(seq![SpanV::Text(e.summary)]);
    fidelity::lemma_plain_text(e.title);
    fidelity::lemma_plain_text(e.link);
    fidelity::lemma_plain_text(e.date);
    fidelity::lemma_plain_text(e.summary);
    let no_span = Seq::<SpanV>::empty();
    fidelity::lemma_plain_push(no_span, link);
    fidelity::lemma_plain_push(no_span, em);
    assert(no_span.push(link) =~= seq![link]);
    assert(no_span.push(em) =~= seq![em]);
    assert(ir::plain(no_span) =~= seq![]);
    assert(ir::plain_span(link) == e.link);
    assert(ir::plain_span(em) == e.date);
    assert(ir::plain(seq![link]) =~= e.link);
    assert(ir::plain(seq![em]) =~= e.date);
    fidelity::lemma_block_texts_push(none, a);
    fidelity::lemma_block_texts_push(none.push(a), b);
    fidelity::lemma_block_texts_push(none.push(a).push(b), c);
    fidelity::lemma_block_texts_push(none.push(a).push(b).push(c), d);
    assert(xml::entry_blocks(e) =~= none.push(a).push(b).push(c).push(d));
    assert(fidelity::block_texts(none) =~= seq![]);
    assert(fidelity::texts_of(a) == seq![e.title]);
    assert(fidelity::texts_of(b) == seq![e.link]);
    assert(fidelity::texts_of(c) == seq![e.date]);
    assert(fidelity::texts_of(d) == seq![e.summary]);
    assert(fidelity::block_texts(xml::entry_blocks(e)) =~= seq![
        e.title,
        e.link,
        e.date,
        e.summary,
    ]);
}

proof fn lemma_entries_texts(items: Seq<ItemNodes>, es: Seq<EntryV>)
    requires
        items.len() == es.len(),
        forall|k: int|
            0 <= k < items.len() ==> is_item(#[trigger] items[k]) && es[k] == entry_of(items[k]),
    ensures
        fidelity::same_words(
            fidelity::block_texts(xml::entries_blocks(es)),
            item_words(items),
        ),
    decreases items.len(),
{
    if items.len() == 0 {
        assert(fidelity::block_texts(xml::entries_blocks(es)) =~= seq![]);
    } else {
        let before = items.drop_last();
        let fs = es.drop_last();
        assert forall|k: int| 0 <= k < before.len() implies is_item(#[trigger] before[k]) && fs[k]
            == entry_of(before[k]) by {
            assert(before[k] == items[k]);
        }
        lemma_entries_texts(before, fs);
        let i = items[items.len() - 1];
        let e = es[es.len() - 1];
        assert(is_item(i) && e == entry_of(i));
        fidelity::lemma_squeeze_blank(i.title.text);
        fidelity::lemma_squeeze_blank(i.link.text);
        fidelity::lemma_squeeze_blank(i.date.text);
        fidelity::lemma_squeeze_blank(i.summary.text);
        converters::squeezing_is_idempotent(i.title.text);
        converters::squeezing_is_idempotent(i.link.text);
        converters::squeezing_is_idempotent(i.date.text);
        converters::squeezing_is_idempotent(i.summary.text);
        lemma_entry_texts(e);
        fidelity::lemma_block_texts_concat(xml::entries_blocks(fs), xml::entry_blocks(e));
        let a = fidelity::block_texts(xml::entries_blocks(fs));
        let b = item_words(before);
        fidelity::lemma_same_words_push(a, b, e.title, i.title.text);
        let a1 = a.push(e.title);
        let b1 = b.push(i.title.text);
        fidelity::lemma_same_words_push(a1, b1, e.link, i.link.text);
        let a2 = a1.push(e.link);
        let b2 = b1.push(i.link.text);
        fidelity::lemma_same_words_push(a2, b2, e.date, i.date.text);
        let a3 = a2.push(e.date);
        let b3 = b2.push(i.date.text);
        fidelity::lemma_same_words_push(a3, b3, e.summary, i.summary.text);
        assert(a + seq![e.title, e.link, e.date, e.summary] =~= a3.push(e.summary));
    }
}

/// A feed shows its items in their order: the title of each, its link, its date and
/// its summary.
pub proof fn feeds_keep_their_items(items: Seq<ItemNodes>)
    requires
        forall|k: int| 0 <= k < items.len() ==> is_item(#[trigger] items[k]),
    ensures
        fidelity::same_words(
            fidelity::block_texts(xml::feed_shown(item_nodes(items)).blocks),
            item_words(items),
        ),
{
    lemma_feed_items(items);
    let f = xml::feed_run(item_nodes(items));
    assert(xml::feed_entries(f) == f.entries);
    assert forall|k: int| 0 <= k < items.len() implies is_item(#[trigger] items[k])
        && f.entries[k] == entry_of(items[k]) by {
        assert(f.entries[k] == entry_of(items[k]));
    }
    lemma_entries_texts(items, f.entries);
    assert(xml::feed_shown(item_nodes(items)).blocks =~= xml::entries_blocks(f.entries));
}

/// Separated values are one table that holds the records, as far as the cap goes, cell
/// by cell and in their order.
pub proof fn records_become_one_table(
    records: Seq<Seq<Seq<char>>>,
    fault: Option<Seq<char>>,
    caption: Option<Seq<char>>,
    max_rows: u32,
)
    ensures
        converters::csv::csv_document((records, fault), caption, max_rows) matches Ok(d) ==> {
            &&& records.len() == 0 ==> d.blocks.len() == 0
            &&& records.len() > 0 ==> d.blocks.len() == 1 && (d.blocks[0] matches BlockV::Table(
                t,
            ) && ({
                let all = fidelity::tables::all_rows(t);
                &&& t.caption == caption
                &&& all.len() == (if records.len() > max_rows + 2 {
                    max_rows as nat + 2
                } else {
                    records.len()
                })
                &&& forall|i: int|
                    0 <= i < all.len() ==> fidelity::row_texts(#[trigger] all[i]) == records[i]
            }))
        },
        fault is None ==> converters::csv::csv_document((records, fault), caption, max_rows)
            is Ok,
{
    if let Ok(d) = converters::csv::csv_document((records, fault), caption, max_rows) {
        let rows = converters::csv::kept_rows(records, max_rows);
        if rows.len() > 0 {
            fidelity::tables::records_keep_their_cells(caption, rows);
            let t = converters::csv::csv_table(caption, rows);
            let all = fidelity::tables::all_rows(t);
            assert forall|i: int| 0 <= i < all.len() implies fidelity::row_texts(
                #[trigger] all[i],
            ) == records[i] by {
                assert(rows[i] == records[i]);
                assert(fidelity::row_texts(all[i]) =~= rows[i]);
            }
        }
    }
}

} // verus!

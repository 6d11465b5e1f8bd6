//! What the renderer guarantees of every document.

use vstd::prelude::*;
use crate::chars;
use crate::ir::{BlockV, DocumentV, SpanV, TableV};
use crate::markdown;
use crate::markdown::{Page, Sheet};
use crate::render;
use crate::render::TableStyle;

verus! {

pub(crate) proof fn lemma_trim_end(s: Seq<char>)
    ensures
        chars::trim_end(s).len() <= s.len(),
        chars::trim_end(s) == s.take(chars::trim_end(s).len() as int),
        chars::trim_end(s).len() > 0 ==> !chars::is_space(chars::trim_end(s).last()),
        chars::byte_len(chars::trim_end(s)) <= chars::byte_len(s),
    decreases s.len(),
{
    if s.len() > 0 && chars::is_space(s.last()) {
        let t = s.drop_last();
        lemma_trim_end(t);
        let n = chars::trim_end(t).len() as int;
        assert(t.take(n) =~= s.take(n));
    } else {
        assert(s.take(s.len() as int) =~= s);
    }
}

/// The output ends with exactly one line feed.
pub proof fn output_ends_with_one_newline(p: Page, d: DocumentV)
    ensures
        ({
            let m = markdown::markdown(p, d);
            &&& m.len() > 0
            &&& m.last() == '\n'
            &&& m.len() > 1 ==> m[m.len() - 2] != '\n'
        }),
{
    let q = markdown::body(p, d).out;
    lemma_trim_end(q);
    reveal_strlit("\n");
    assert(markdown::markdown(p, d) =~= chars::trim_end(q).push('\n'));
}

pub(crate) proof fn lemma_trim_start_trimmed(s: Seq<char>)
    ensures
        chars::trim_start(chars::trim_end(s)) == chars::trim_end(chars::trim_start(s)),
    decreases s.len(),
{
    if s.len() > 0 && chars::is_space(s[0]) {
        lemma_trim_start_trimmed(s.skip(1));
        lemma_trim_end_front(s);
    } else if s.len() > 0 {
        lemma_trim_end_keeps_first(s);
    }
}

/// Trimming the end of a text keeps a first character that is no white space.
proof fn lemma_trim_end_keeps_first(s: Seq<char>)
    requires
        s.len() > 0,
        !chars::is_space(s[0]),
    ensures
        chars::trim_end(s).len() > 0,
        chars::trim_end(s)[0] == s[0],
    decreases s.len(),
{
    if chars::is_space(s.last()) {
        assert(s.len() > 1);
        lemma_trim_end_keeps_first(s.drop_last());
    }
}

/// White space in front of a text stays outside what trimming its end sees.
proof fn lemma_trim_end_front(s: Seq<char>)
    requires
        s.len() > 0,
        chars::is_space(s[0]),
    ensures
        chars::trim_start(chars::trim_end(s)) == chars::trim_start(chars::trim_end(s.skip(1))),
    decreases s.len(),
{
    if chars::is_space(s.last()) {
        if s.len() > 1 {
            assert(s.skip(1).drop_last() =~= s.drop_last().skip(1));
            lemma_trim_end_front(s.drop_last());
        } else {
            assert(s.drop_last() =~= seq![]);
            assert(s.skip(1) =~= seq![]);
        }
    } else {
        assert(s.len() > 1);
        assert(s.skip(1).last() == s.last());
    }
}

/// No three line feeds stand next to each other.
pub open spec fn no_triple(s: Seq<char>) -> bool {
    forall|i: int|
        0 <= i && i + 2 < s.len() ==> !(#[trigger] s[i] == '\n' && s[i + 1] == '\n' && s[i + 2]
            == '\n')
}

pub(crate) proof fn lemma_tail(s: Seq<char>)
    ensures
        markdown::tail(s) <= 2,
        markdown::tail(s) == 0 <==> s.len() == 0 || s.last() != '\n',
        markdown::tail(s) == 2 <==> s.len() >= 2 && s[s.len() - 1] == '\n' && s[s.len() - 2]
            == '\n',
    decreases s.len(),
{
    if s.len() > 0 {
        lemma_tail(s.drop_last());
    }
}

/// A tight page stays without three line feeds in a row, whatever is written.
proof fn lemma_tightened(out: Seq<char>, t: Seq<char>)
    requires
        no_triple(out),
    ensures
        no_triple(out + markdown::tightened(markdown::tail(out), t)),
    decreases t.len(),
{
    let run = markdown::tail(out);
    if t.len() == 0 {
        assert(out + markdown::tightened(run, t) =~= out);
    } else {
        let k = markdown::tightened(run, t.drop_last());
        let u = out + k;
        let c = t.last();
        lemma_tightened(out, t.drop_last());
        render::lemma_tail_tightened(out, t.drop_last());
        lemma_tail(u);
        if !(c == '\n' && markdown::run_after(run, t.drop_last()) >= 2) {
            let v = u.push(c);
            assert(out + k.push(c) =~= v);
            assert forall|i: int| 0 <= i && i + 2 < v.len() implies !(#[trigger] v[i] == '\n'
                && v[i + 1] == '\n' && v[i + 2] == '\n') by {
                if i + 2 < u.len() {
                    assert(u[i] == v[i]);
                } else {
                    assert(v[i] == u[u.len() - 2] && v[i + 1] == u[u.len() - 1]);
                }
            }
        }
    }
}

/// The sheet's text is within the page's cap; on a calm page it has no three
/// line feeds in a row.
pub open spec fn fits(p: Page, s: Sheet, calm: bool) -> bool {
    &&& chars::byte_len(s.out) <= p.max
    &&& !s.truncated ==> chars::byte_len(s.out) <= s.spent <= p.max
    &&& calm ==> no_triple(s.out)
}

proof fn lemma_push_fits(p: Page, s: Sheet, t: Seq<char>, calm: bool)
    requires
        fits(p, s, calm),
        calm ==> p.tight,
    ensures
        fits(p, markdown::push(p, s, t), calm),
{
    let k = markdown::tightened(markdown::tail(s.out), t);
    chars::lemma_byte_len_concat(s.out, t);
    chars::lemma_byte_len_concat(s.out, k);
    render::lemma_tail_tightened(s.out, t);
    if calm {
        lemma_tightened(s.out, t);
    }
}

proof fn lemma_line_fits(p: Page, s: Sheet, t: Seq<char>, calm: bool)
    requires
        fits(p, s, calm),
        calm ==> p.tight,
    ensures
        fits(p, markdown::line(p, s, t), calm),
{
    lemma_push_fits(p, s, t, calm);
    lemma_push_fits(p, markdown::push(p, s, t), "\n"@, calm);
}

proof fn lemma_blank_fits(p: Page, s: Sheet, calm: bool)
    requires
        fits(p, s, calm),
        calm ==> p.tight,
    ensures
        fits(p, markdown::blank(p, s), calm),
{
    lemma_push_fits(p, s, "\n"@, calm);
}

proof fn lemma_spaced_line_fits(p: Page, s: Sheet, t: Seq<char>, calm: bool)
    requires
        fits(p, s, calm),
        calm ==> p.tight,
    ensures
        fits(p, markdown::spaced_line(p, s, t), calm),
{
    lemma_blank_fits(p, s, calm);
    lemma_line_fits(p, markdown::blank(p, s), t, calm);
    lemma_blank_fits(p, markdown::whole(s, markdown::line(p, markdown::blank(p, s), t)), calm);
}

proof fn lemma_verbatim_line_fits(p: Page, s: Sheet, t: Seq<char>, calm: bool)
    requires
        fits(p, s, calm),
        !calm,
    ensures
        fits(p, markdown::verbatim_line(p, s, t), calm),
{
    let a = markdown::blank(p, s);
    let b = markdown::line(markdown::loose(p), a, t);
    lemma_blank_fits(p, s, calm);
    lemma_line_fits(markdown::loose(p), a, t, calm);
    lemma_blank_fits(p, markdown::whole(s, b), calm);
}

proof fn lemma_pair_lines_fit(
    p: Page,
    s: Sheet,
    pairs: Seq<(Seq<char>, Seq<char>)>,
    sep: Seq<char>,
    calm: bool,
)
    requires
        fits(p, s, calm),
        calm ==> p.tight,
    ensures
        fits(p, markdown::pair_lines(p, s, pairs, sep), calm),
    decreases pairs.len(),
{
    if pairs.len() > 0 {
        lemma_pair_lines_fit(p, s, pairs.drop_last(), sep, calm);
        lemma_line_fits(
            p,
            markdown::pair_lines(p, s, pairs.drop_last(), sep),
            markdown::yaml_key(pairs.last().0) + sep + markdown::scalar(pairs.last().1),
            calm,
        );
    }
}

proof fn lemma_front_fits(
    p: Page,
    s: Sheet,
    pairs: Seq<(Seq<char>, Seq<char>)>,
    fence: Seq<char>,
    sep: Seq<char>,
    calm: bool,
)
    requires
        fits(p, s, calm),
        calm ==> p.tight,
    ensures
        fits(p, markdown::front_block(p, s, pairs, fence, sep), calm),
{
    if pairs.len() > 0 {
        let a = markdown::line(p, s, fence);
        let b = markdown::pair_lines(p, a, pairs, sep);
        lemma_line_fits(p, s, fence, calm);
        lemma_pair_lines_fit(p, a, pairs, sep, calm);
        lemma_line_fits(p, b, fence, calm);
        lemma_blank_fits(p, markdown::whole(s, markdown::line(p, b, fence)), calm);
    }
}

proof fn lemma_quote_fits(p: Page, s: Sheet, ls: Seq<Seq<char>>, calm: bool)
    requires
        fits(p, s, calm),
        calm ==> p.tight,
    ensures
        fits(p, markdown::quote_lines(p, s, ls), calm),
    decreases ls.len(),
{
    if ls.len() > 0 {
        lemma_quote_fits(p, s, ls.drop_last(), calm);
        let t = if ls.last().len() == 0 {
            ">"@
        } else {
            "> "@ + ls.last()
        };
        lemma_line_fits(p, markdown::quote_lines(p, s, ls.drop_last()), t, calm);
    }
}

proof fn lemma_hanging_fits(p: Page, s: Sheet, ls: Seq<Seq<char>>, pad: Seq<char>, calm: bool)
    requires
        fits(p, s, calm),
        calm ==> p.tight,
    ensures
        fits(p, markdown::hanging_lines(p, s, ls, pad), calm),
    decreases ls.len(),
{
    if ls.len() > 0 {
        let t = markdown::hanging_lines(p, s, ls.drop_last(), pad);
        lemma_hanging_fits(p, s, ls.drop_last(), pad, calm);
        lemma_push_fits(p, t, "\n"@, calm);
        lemma_line_fits(p, t, pad + ls.last(), calm);
    }
}

proof fn lemma_item_fits(p: Page, s: Sheet, marker: Seq<char>, body: Seq<char>, calm: bool)
    requires
        fits(p, s, calm),
        calm ==> p.tight,
    ensures
        fits(p, markdown::item(p, s, marker, body), calm),
{
    let ls = chars::lines(chars::trim_end(body));
    lemma_line_fits(p, s, chars::trim_end(marker), calm);
    if ls.len() > 0 {
        lemma_line_fits(p, s, marker + ls[0], calm);
        lemma_hanging_fits(
            p,
            markdown::line(p, s, marker + ls[0]),
            ls.skip(1),
            chars::repeat(" "@, chars::byte_len(marker)),
            calm,
        );
    }
}

proof fn lemma_list_fits(p: Page, s: Sheet, ordered: bool, items: Seq<Seq<BlockV>>, calm: bool)
    requires
        fits(p, s, calm),
        calm ==> p.tight && !markdown::any_verbatim_item(items),
    ensures
        fits(p, markdown::list(p, s, ordered, items), calm),
    decreases items.len(),
{
    if items.len() > 0 {
        let t = markdown::list(p, s, ordered, items.drop_last());
        lemma_list_fits(p, s, ordered, items.drop_last(), calm);
        let f = markdown::fragment(p, items.last());
        let q = if markdown::any_verbatim(items.last()) {
            markdown::loose(p)
        } else {
            p
        };
        lemma_item_fits(
            q,
            markdown::joined(t, f),
            markdown::list_marker(ordered, (items.len() - 1) as nat),
            f.out,
            calm,
        );
    }
}

proof fn lemma_pipe_rows_fit(p: Page, s: Sheet, rows: Seq<Seq<Seq<SpanV>>>, width: nat, calm: bool)
    requires
        fits(p, s, calm),
        calm ==> p.tight,
    ensures
        fits(p, markdown::pipe_rows(p, s, rows, width), calm),
    decreases rows.len(),
{
    if rows.len() > 0 {
        let t = markdown::pipe_rows(p, s, rows.drop_last(), width);
        lemma_pipe_rows_fit(p, s, rows.drop_last(), width, calm);
        lemma_line_fits(p, t, markdown::pipe_row(markdown::pad_cells(rows.last(), width)), calm);
    }
}

proof fn lemma_html_cells_fit(
    p: Page,
    s: Sheet,
    cells: Seq<Seq<char>>,
    open: Seq<char>,
    close: Seq<char>,
    calm: bool,
)
    requires
        fits(p, s, calm),
        calm ==> p.tight,
    ensures
        fits(p, markdown::html_cells(p, s, cells, open, close), calm),
    decreases cells.len(),
{
    if cells.len() > 0 {
        let t = markdown::html_cells(p, s, cells.drop_last(), open, close);
        lemma_html_cells_fit(p, s, cells.drop_last(), open, close, calm);
        lemma_line_fits(p, t, open + markdown::html_escape(cells.last()) + close, calm);
    }
}

proof fn lemma_html_rows_fit(p: Page, s: Sheet, rows: Seq<Seq<Seq<SpanV>>>, width: nat, calm: bool)
    requires
        fits(p, s, calm),
        calm ==> p.tight,
    ensures
        fits(p, markdown::html_rows(p, s, rows, width), calm),
    decreases rows.len(),
{
    if rows.len() > 0 {
        let t = markdown::html_rows(p, s, rows.drop_last(), width);
        let cells = markdown::pad_cells_raw(rows.last(), width);
        let a = markdown::line(p, t, "<tr>"@);
        let b = markdown::html_cells(p, a, cells, "<td>"@, "</td>"@);
        lemma_html_rows_fit(p, s, rows.drop_last(), width, calm);
        lemma_line_fits(p, t, "<tr>"@, calm);
        lemma_html_cells_fit(p, a, cells, "<td>"@, "</td>"@, calm);
        lemma_line_fits(p, b, "</tr>"@, calm);
    }
}

proof fn lemma_csv_rows_fit(p: Page, s: Sheet, rows: Seq<Seq<Seq<SpanV>>>, width: nat, calm: bool)
    requires
        fits(p, s, calm),
        calm ==> p.tight,
    ensures
        fits(p, markdown::csv_rows(p, s, rows, width), calm),
    decreases rows.len(),
{
    if rows.len() > 0 {
        let t = markdown::csv_rows(p, s, rows.drop_last(), width);
        lemma_csv_rows_fit(p, s, rows.drop_last(), width, calm);
        lemma_line_fits(p, t, markdown::csv_row(markdown::pad_cells_raw(rows.last(), width)), calm);
    }
}

proof fn lemma_gfm_fits(p: Page, s: Sheet, t: TableV, rows: Seq<Seq<Seq<SpanV>>>, calm: bool)
    requires
        fits(p, s, calm),
        calm ==> p.tight,
    ensures
        fits(p, markdown::gfm_table(p, s, t, rows), calm),
{
    let w = t.width();
    let header = match t.header {
        Some(h) => markdown::pad_cells(h, w),
        None => Seq::new(w, |i: int| Seq::<char>::empty()),
    };
    let a = markdown::line(p, s, markdown::pipe_row(header));
    lemma_line_fits(p, s, markdown::pipe_row(header), calm);
    lemma_line_fits(p, a, markdown::pipe_row(markdown::dashes(w)), calm);
    let b = markdown::line(p, a, markdown::pipe_row(markdown::dashes(w)));
    lemma_pipe_rows_fit(p, b, rows, w, calm);
}

proof fn lemma_html_fits(p: Page, s: Sheet, t: TableV, rows: Seq<Seq<Seq<SpanV>>>, calm: bool)
    requires
        fits(p, s, calm),
        calm ==> p.tight,
    ensures
        fits(p, markdown::html_table(p, s, t, rows), calm),
{
    let w = t.width();
    let a = markdown::line(p, s, "<table>"@);
    lemma_line_fits(p, s, "<table>"@, calm);
    let b = match t.header {
        Some(h) => {
            let c = markdown::line(p, a, "<thead><tr>"@);
            let e = markdown::html_cells(p, c, markdown::pad_cells_raw(h, w), "<th>"@, "</th>"@);
            markdown::line(p, e, "</tr></thead>"@)
        },
        None => a,
    };
    if let Some(h) = t.header {
        let c = markdown::line(p, a, "<thead><tr>"@);
        let e = markdown::html_cells(p, c, markdown::pad_cells_raw(h, w), "<th>"@, "</th>"@);
        lemma_line_fits(p, a, "<thead><tr>"@, calm);
        lemma_html_cells_fit(p, c, markdown::pad_cells_raw(h, w), "<th>"@, "</th>"@, calm);
        lemma_line_fits(p, e, "</tr></thead>"@, calm);
    }
    let f = markdown::line(p, b, "<tbody>"@);
    lemma_line_fits(p, b, "<tbody>"@, calm);
    lemma_html_rows_fit(p, f, rows, w, calm);
    let g = markdown::html_rows(p, f, rows, w);
    lemma_line_fits(p, g, "</tbody>"@, calm);
    lemma_line_fits(p, markdown::line(p, g, "</tbody>"@), "</table>"@, calm);
}

proof fn lemma_csv_fits(p: Page, s: Sheet, t: TableV, rows: Seq<Seq<Seq<SpanV>>>, calm: bool)
    requires
        fits(p, s, calm),
        calm ==> p.tight,
    ensures
        fits(p, markdown::csv_table(p, s, t, rows), calm),
{
    let w = t.width();
    let a = markdown::line(p, s, "```csv"@);
    lemma_line_fits(p, s, "```csv"@, calm);
    let b = match t.header {
        Some(h) => markdown::line(p, a, markdown::csv_row(markdown::pad_cells_raw(h, w))),
        None => a,
    };
    if let Some(h) = t.header {
        lemma_line_fits(p, a, markdown::csv_row(markdown::pad_cells_raw(h, w)), calm);
    }
    lemma_csv_rows_fit(p, b, rows, w, calm);
    lemma_line_fits(p, markdown::csv_rows(p, b, rows, w), "```"@, calm);
}

proof fn lemma_table_fits(p: Page, s: Sheet, t: TableV, calm: bool)
    requires
        fits(p, s, calm),
        calm ==> p.tight,
    ensures
        fits(p, markdown::table(p, s, t), calm),
{
    if let Some(c) = t.caption {
        lemma_line_fits(p, s, "**"@ + markdown::escape_text(c) + "**"@, calm);
        lemma_blank_fits(p, markdown::line(p, s, "**"@ + markdown::escape_text(c) + "**"@), calm);
    }
    let a = markdown::table_caption(p, s, t);
    let cut = t.rows.len() > p.max_rows;
    let rows = if cut {
        t.rows.take(p.max_rows as int)
    } else {
        t.rows
    };
    lemma_gfm_fits(p, a, t, rows, calm);
    lemma_html_fits(p, a, t, rows, calm);
    lemma_csv_fits(p, a, t, rows, calm);
    let b = match p.opts.tables {
        TableStyle::Gfm => markdown::gfm_table(p, a, t, rows),
        TableStyle::Html => markdown::html_table(p, a, t, rows),
        TableStyle::Csv => markdown::csv_table(p, a, t, rows),
    };
    let c = Sheet {
        warnings: b.warnings.push(markdown::rows_warning(p.max_rows, t.rows.len())),
        ..b
    };
    lemma_blank_fits(p, c, calm);
    lemma_line_fits(
        p,
        markdown::blank(p, c),
        "_… "@ + chars::decimal((t.rows.len() - p.max_rows) as nat) + " further rows omitted_"@,
        calm,
    );
}

proof fn lemma_block_fits(p: Page, s: Sheet, b: BlockV, extra: u8, calm: bool)
    requires
        fits(p, s, calm),
        calm ==> p.tight && !markdown::is_verbatim(b),
    ensures
        fits(p, markdown::block(p, s, b, extra), calm),
    decreases b, 0int,
{
    lemma_blank_fits(p, s, calm);
    let z = markdown::blank(p, s);
    match b {
        BlockV::Heading { level, text } => {
            lemma_spaced_line_fits(
                p,
                s,
                chars::repeat(
                    "#"@,
                    markdown::heading_level(level, p.opts.heading_offset, extra),
                ) + " "@ + markdown::inline(text),
                calm,
            );
        },
        BlockV::Paragraph(text) => {
            lemma_spaced_line_fits(p, s, markdown::inline(text), calm);
        },
        BlockV::List { ordered, items } => {
            lemma_list_fits(p, z, ordered, items, calm);
            lemma_blank_fits(p, markdown::whole(s, markdown::list(p, z, ordered, items)), calm);
        },
        BlockV::Table(t) => {
            lemma_table_fits(p, z, t, calm);
            lemma_blank_fits(p, markdown::whole(s, markdown::table(p, z, t)), calm);
        },
        BlockV::Code { language, text } => {
            let fence = markdown::fence_for(text);
            let tag = match language {
                Some(l) => l,
                None => ""@,
            };
            let q = markdown::loose(p);
            let a = markdown::line(q, z, fence + tag);
            let c = markdown::line(q, a, chars::trim_end_char(text, '\n'));
            lemma_line_fits(q, z, fence + tag, calm);
            lemma_line_fits(q, a, chars::trim_end_char(text, '\n'), calm);
            lemma_line_fits(q, c, fence, calm);
            lemma_blank_fits(p, markdown::whole(s, markdown::code(q, z, language, text)), calm);
        },
        BlockV::Quote(inner) => {
            let f = markdown::fragment(p, inner);
            let a = markdown::joined(z, f);
            let ls = chars::lines(f.out);
            lemma_quote_fits(p, a, ls, calm);
            lemma_blank_fits(p, markdown::whole(s, markdown::quote_lines(p, a, ls)), calm);
        },
        BlockV::Image(img) => {
            lemma_spaced_line_fits(p, s, markdown::image(img), calm);
        },
        BlockV::Rule => {
            lemma_spaced_line_fits(p, s, "---"@, calm);
        },
        BlockV::Raw { markdown: m } => {
            if !calm {
                lemma_verbatim_line_fits(p, s, chars::trim_end(m), calm);
            }
        },
        BlockV::RawHtml { html } => {
            if !calm {
                lemma_verbatim_line_fits(p, s, chars::trim_end(html), calm);
            }
        },
        BlockV::Embedded { name, doc } => {
            let head = markdown::member_heading(p, name);
            let a = markdown::spaced_line(p, s, head);
            lemma_spaced_line_fits(p, s, head, calm);
            lemma_blocks_fit(p, a, doc.blocks, markdown::sat2(extra), calm);
            lemma_blank_fits(p, markdown::blocks(p, a, doc.blocks, markdown::sat2(extra)), calm);
        },
    }
}

proof fn lemma_blocks_fit(p: Page, s: Sheet, bs: Seq<BlockV>, extra: u8, calm: bool)
    requires
        fits(p, s, calm),
        calm ==> p.tight && !markdown::any_verbatim(bs),
    ensures
        fits(p, markdown::blocks(p, s, bs, extra), calm),
    decreases bs, 0int,
{
    if bs.len() > 0 {
        lemma_blocks_fit(p, s, bs.drop_last(), extra, calm);
        lemma_block_fits(p, markdown::blocks(p, s, bs.drop_last(), extra), bs.last(), extra, calm);
    }
}

/// The output takes no more bytes than the page's cap, and one for its final
/// line feed.
pub proof fn output_is_bounded(p: Page, d: DocumentV)
    ensures
        chars::byte_len(markdown::markdown(p, d)) <= p.max + 1,
{
    let s = markdown::front_matter(p, markdown::fresh(), d);
    let pairs = markdown::front_pairs(d.title, d.metadata);
    lemma_front_fits(p, markdown::fresh(), pairs, "---"@, ": "@, false);
    lemma_front_fits(p, markdown::fresh(), pairs, "+++"@, " = "@, false);
    lemma_blocks_fit(p, s, d.blocks, 0, false);
    let q = markdown::body(p, d).out;
    lemma_trim_end(q);
    let t = chars::trim_end(q);
    reveal_strlit("\n");
    assert("\n"@ =~= seq!['\n']);
    assert("\n"@.drop_last() =~= seq![]);
    assert(chars::byte_len("\n"@) == chars::byte_len("\n"@.drop_last()) + 1);
    chars::lemma_byte_len_concat(t, "\n"@);
}

/// No more than two line feeds follow each other in a document without blocks
/// that are written as they are: no code block, no Markdown and no HTML of its
/// own, at any depth.
pub proof fn blank_lines_stay_single(p: Page, d: DocumentV)
    requires
        p.tight,
        !markdown::any_verbatim(d.blocks),
    ensures
        no_triple(markdown::markdown(p, d)),
{
    let s = markdown::front_matter(p, markdown::fresh(), d);
    let pairs = markdown::front_pairs(d.title, d.metadata);
    lemma_front_fits(p, markdown::fresh(), pairs, "---"@, ": "@, true);
    lemma_front_fits(p, markdown::fresh(), pairs, "+++"@, " = "@, true);
    lemma_blocks_fit(p, s, d.blocks, 0, true);
    let q = markdown::body(p, d).out;
    lemma_trim_end(q);
    let t = chars::trim_end(q);
    reveal_strlit("\n");
    let m = markdown::markdown(p, d);
    assert(m =~= t.push('\n'));
    assert forall|i: int| 0 <= i && i + 2 < m.len() implies !(#[trigger] m[i] == '\n' && m[i + 1]
        == '\n' && m[i + 2] == '\n') by {
        if i + 2 < t.len() {
            assert(m[i] == q[i]);
        } else {
            assert(m[i + 1] == t.last());
        }
    }
}

/// Every heading is written at a level of 1 to 6, whatever is added to it.
pub proof fn heading_levels_are_levels(level: u8, offset: u8, extra: u8)
    ensures
        1 <= markdown::heading_level(level, offset, extra) <= 6,
{
}

/// An embedded document's headings never rank above the heading that
/// introduces it.
pub proof fn embedded_headings_rank_below(level: u8, offset: u8, extra: u8)
    requires
        level >= 1,
    ensures
        markdown::heading_level(level, offset, markdown::sat2(extra)) > 2,
{
}

pub(crate) proof fn lemma_repeat_tick(n: nat)
    ensures
        chars::repeat("`"@, n).len() == n,
        forall|i: int| 0 <= i < n ==> #[trigger] chars::repeat("`"@, n)[i] == '`',
    decreases n,
{
    reveal_strlit("`");
    if n > 0 {
        lemma_repeat_tick((n - 1) as nat);
    }
}

proof fn lemma_backtick_tail(s: Seq<char>, i: int)
    requires
        0 <= i <= s.len(),
        forall|k: int| i <= k < s.len() ==> #[trigger] s[k] == '`',
    ensures
        s.len() - i <= markdown::backtick_tail(s),
    decreases s.len(),
{
    if i < s.len() {
        let t = s.drop_last();
        assert forall|k: int| i <= k < t.len() implies #[trigger] t[k] == '`' by {
            assert(t[k] == s[k]);
        }
        lemma_backtick_tail(t, i);
        assert(s[s.len() - 1] == '`');
    }
}

proof fn lemma_longest_run(s: Seq<char>, i: int, j: int)
    requires
        0 <= i <= j <= s.len(),
        forall|k: int| i <= k < j ==> #[trigger] s[k] == '`',
    ensures
        j - i <= markdown::longest_backtick_run(s),
    decreases s.len(),
{
    if s.len() > 0 {
        if j < s.len() {
            let t = s.drop_last();
            assert forall|k: int| i <= k < j implies #[trigger] t[k] == '`' by {
                assert(t[k] == s[k]);
            }
            lemma_longest_run(t, i, j);
        } else {
            lemma_backtick_tail(s, i);
        }
    }
}

/// The characters from `i` up to `j` are all backticks.
pub open spec fn is_run(s: Seq<char>, i: int, j: int) -> bool {
    0 <= i <= j <= s.len() && forall|k: int| i <= k < j ==> #[trigger] s[k] == '`'
}

/// The fence of a code block is made of backticks, at least three, and longer
/// than any run of backticks in the body.
pub proof fn fences_outgrow_their_body(body: Seq<char>)
    ensures
        markdown::fence_for(body).len() >= 3,
        forall|i: int|
            0 <= i < markdown::fence_for(body).len() ==> #[trigger] markdown::fence_for(body)[i]
                == '`',
        forall|i: int, j: int| #[trigger]
            is_run(body, i, j) ==> j - i < markdown::fence_for(body).len(),
{
    let n = markdown::longest_backtick_run(body);
    let m: nat = if n > 2 {
        n + 1
    } else {
        3
    };
    lemma_repeat_tick(m);
    assert forall|i: int, j: int| #[trigger] is_run(body, i, j) implies j - i < markdown::fence_for(
        body,
    ).len() by {
        lemma_longest_run(body, i, j);
    }
}

/// How a reader sees a text: what is still to be escaped, how many bare
/// occurrences of a mark there are, and whether it ends in white space that a
/// backslash disarms.
#[verifier::ext_equal]
pub struct Scan {
    pub pending: bool,
    pub bare: nat,
    pub odd: bool,
}

/// A backslash takes the meaning of whatever follows it.
pub open spec fn step(a: Scan, c: char, mark: char) -> Scan {
    if a.pending {
        Scan { pending: false, bare: a.bare, odd: chars::is_space(c) }
    } else if c == '\\' {
        Scan { pending: true, bare: a.bare, odd: false }
    } else if c == mark {
        Scan { pending: false, bare: a.bare + 1, odd: false }
    } else {
        Scan { odd: a.odd && chars::is_space(c), ..a }
    }
}

pub open spec fn scan_from(a: Scan, s: Seq<char>, mark: char) -> Scan
    decreases s.len(),
{
    if s.len() == 0 {
        a
    } else {
        step(scan_from(a, s.drop_last(), mark), s.last(), mark)
    }
}

pub open spec fn start() -> Scan {
    Scan { pending: false, bare: 0, odd: false }
}

/// How many occurrences of `mark` no backslash disarms.
pub open spec fn bare(s: Seq<char>, mark: char) -> nat {
    scan_from(start(), s, mark).bare
}

/// Nothing in `s` acts as `mark`, wherever `s` is put.
pub open spec fn inert(s: Seq<char>, mark: char) -> bool {
    forall|a: Scan|
        !a.pending && !a.odd ==> #[trigger] scan_from(a, s, mark) == a
}

proof fn lemma_scan_concat(a: Scan, s: Seq<char>, t: Seq<char>, mark: char)
    ensures
        scan_from(a, s + t, mark) == scan_from(scan_from(a, s, mark), t, mark),
    decreases t.len(),
{
    if t.len() == 0 {
        assert(s + t =~= s);
    } else {
        assert((s + t).drop_last() =~= s + t.drop_last());
        lemma_scan_concat(a, s, t.drop_last(), mark);
    }
}

proof fn lemma_inert_concat(s: Seq<char>, t: Seq<char>, mark: char)
    requires
        inert(s, mark),
        inert(t, mark),
    ensures
        inert(s + t, mark),
{
    assert forall|a: Scan| !a.pending && !a.odd implies #[trigger] scan_from(a, s + t, mark)
        == a by {
        lemma_scan_concat(a, s, t, mark);
        assert(scan_from(a, s, mark) == a);
    }
}

proof fn lemma_inert_char(c: char, mark: char)
    requires
        c != '\\',
        c != mark,
    ensures
        inert(seq![c], mark),
{
    let s = seq![c];
    assert(s.drop_last() =~= seq![]);
    assert forall|a: Scan| !a.pending && !a.odd implies #[trigger] scan_from(a, s, mark) == a by {
        assert(scan_from(a, s.drop_last(), mark) == a);
    }
}

proof fn lemma_inert_empty(mark: char)
    ensures
        inert(seq![], mark),
{
}

proof fn lemma_inert_escape(c: char, mark: char)
    requires
        !chars::is_space(c),
    ensures
        inert(seq!['\\', c], mark),
{
    let s = seq!['\\', c];
    assert(s.drop_last() =~= seq!['\\']);
    assert(s.drop_last().drop_last() =~= seq![]);
    assert forall|a: Scan| !a.pending && !a.odd implies #[trigger] scan_from(a, s, mark) == a by {
        assert(scan_from(a, s.drop_last().drop_last(), mark) == a);
        assert(scan_from(a, s.drop_last(), mark) == Scan { pending: true, ..a });
    }
}

proof fn lemma_inert_plain(s: Seq<char>, mark: char)
    requires
        forall|i: int| 0 <= i < s.len() ==> #[trigger] s[i] != '\\' && s[i] != mark,
    ensures
        inert(s, mark),
    decreases s.len(),
{
    if s.len() > 0 {
        let t = s.drop_last();
        assert forall|i: int| 0 <= i < t.len() implies #[trigger] t[i] != '\\' && t[i] != mark by {
            assert(t[i] == s[i]);
        }
        lemma_inert_plain(t, mark);
        assert(s[s.len() - 1] == s.last());
        lemma_inert_char(s.last(), mark);
        lemma_inert_concat(t, seq![s.last()], mark);
        assert(s =~= t + seq![s.last()]);
    } else {
        assert(s =~= seq![]);
    }
}

proof fn lemma_trim_end_inert(s: Seq<char>, mark: char)
    requires
        inert(s, mark),
        !chars::is_space(mark),
    ensures
        inert(chars::trim_end(s), mark),
    decreases s.len(),
{
    if s.len() > 0 && chars::is_space(s.last()) {
        let t = s.drop_last();
        assert forall|a: Scan| !a.pending && !a.odd implies #[trigger] scan_from(a, t, mark)
            == a by {
            let b = scan_from(a, t, mark);
            assert(scan_from(a, s, mark) == a);
            assert(step(b, s.last(), mark) == a);
        }
        lemma_trim_end_inert(t, mark);
    }
}

proof fn lemma_trim_start_inert(s: Seq<char>, mark: char)
    requires
        inert(s, mark),
        !chars::is_space(mark),
    ensures
        inert(chars::trim_start(s), mark),
    decreases s.len(),
{
    if s.len() > 0 && chars::is_space(s[0]) {
        let t = s.skip(1);
        assert(s =~= seq![s[0]] + t);
        assert forall|a: Scan| !a.pending && !a.odd implies #[trigger] scan_from(a, t, mark)
            == a by {
            lemma_scan_concat(a, seq![s[0]], t, mark);
            lemma_inert_char(s[0], mark);
            assert(scan_from(a, seq![s[0]], mark) == a);
            assert(scan_from(a, s, mark) == a);
        }
        lemma_trim_start_inert(t, mark);
    }
}

proof fn lemma_escape_to_inert(s: Seq<char>, n: int, newline: Seq<char>, mark: char)
    requires
        n <= s.len(),
        markdown::is_markup(mark),
        mark != '\\',
        inert(newline, mark),
    ensures
        inert(markdown::escape_to(s, n, newline), mark),
    decreases n,
{
    if n > 0 {
        lemma_escape_to_inert(s, n - 1, newline, mark);
        let e = markdown::escape_at(s, n - 1, newline);
        if markdown::needs_escape(s, n - 1) {
            lemma_inert_escape(s[n - 1], mark);
        } else if s[n - 1] != '\r' && s[n - 1] != '\n' {
            lemma_inert_char(s[n - 1], mark);
        }
        lemma_inert_concat(markdown::escape_to(s, n - 1, newline), e, mark);
    }
}

/// Text cannot forge markup: of the characters that mean something to
/// Markdown wherever they stand, none is left without a backslash.
pub proof fn text_cannot_forge_markup(s: Seq<char>, mark: char)
    requires
        markdown::is_markup(mark),
        mark != '\\',
    ensures
        inert(markdown::escape_text(s), mark),
        bare(markdown::escape_text(s), mark) == 0,
{
    reveal_strlit(" ");
    assert(" "@ =~= seq![' ']);
    lemma_inert_char(' ', mark);
    lemma_escape_to_inert(s, s.len() as int, " "@, mark);
    assert(scan_from(start(), markdown::escape_text(s), mark) == start());
}

pub open spec fn one_line(s: Seq<char>) -> bool {
    forall|i: int| 0 <= i < s.len() ==> #[trigger] s[i] != '\n'
}

proof fn lemma_one_line_concat(a: Seq<char>, b: Seq<char>)
    requires
        one_line(a),
        one_line(b),
    ensures
        one_line(a + b),
{
    assert forall|i: int| 0 <= i < (a + b).len() implies #[trigger] (a + b)[i] != '\n' by {
        if i < a.len() {
            assert(a[i] == (a + b)[i]);
        } else {
            assert(b[i - a.len()] == (a + b)[i]);
        }
    }
}

proof fn lemma_escape_to_one_line(s: Seq<char>, n: int, newline: Seq<char>)
    requires
        n <= s.len(),
        one_line(newline),
    ensures
        one_line(markdown::escape_to(s, n, newline)),
    decreases n,
{
    if n > 0 {
        lemma_escape_to_one_line(s, n - 1, newline);
        lemma_one_line_concat(
            markdown::escape_to(s, n - 1, newline),
            markdown::escape_at(s, n - 1, newline),
        );
    }
}

pub(crate) proof fn lemma_trim_parts(s: Seq<char>)
    ensures
        exists|i: int, j: int|
            0 <= i <= j <= s.len() && chars::trim(s) == #[trigger] s.subrange(i, j),
{
    lemma_trim_start_part(s);
    let i = choose|i: int| 0 <= i <= s.len() && chars::trim_start(s) == #[trigger] s.skip(i);
    lemma_trim_end(s.skip(i));
    let n = chars::trim_end(s.skip(i)).len() as int;
    assert(s.skip(i).take(n) =~= s.subrange(i, i + n));
}

proof fn lemma_trim_start_part(s: Seq<char>)
    ensures
        exists|i: int| 0 <= i <= s.len() && chars::trim_start(s) == #[trigger] s.skip(i),
    decreases s.len(),
{
    if s.len() > 0 && chars::is_space(s[0]) {
        lemma_trim_start_part(s.skip(1));
        let i = choose|i: int|
            0 <= i <= s.skip(1).len() && chars::trim_start(s.skip(1)) == #[trigger] s.skip(1).skip(
                i,
            );
        assert(s.skip(1).skip(i) =~= s.skip(i + 1));
    } else {
        assert(s.skip(0) =~= s);
    }
}

proof fn lemma_wrapped(marker: Seq<char>, s: Seq<char>)
    requires
        inert(s, '|'),
        one_line(s),
        inert(marker, '|'),
        one_line(marker),
    ensures
        inert(markdown::wrapped(marker, s), '|'),
        one_line(markdown::wrapped(marker, s)),
{
    let t = chars::trim(s);
    lemma_trim_start_inert(s, '|');
    lemma_trim_end_inert(chars::trim_start(s), '|');
    lemma_trim_parts(s);
    let (i, j) = choose|i: int, j: int|
        0 <= i <= j <= s.len() && chars::trim(s) == #[trigger] s.subrange(i, j);
    assert forall|k: int| 0 <= k < t.len() implies #[trigger] t[k] != '\n' by {
        assert(t[k] == s[i + k]);
    }
    lemma_inert_concat(marker, t, '|');
    lemma_inert_concat(marker + t, marker, '|');
    lemma_one_line_concat(marker, t);
    lemma_one_line_concat(marker + t, marker);
}

/// What a reader has seen after Markdown that was put in a cell.
proof fn lemma_in_cell_scan(a: Scan, s: Seq<char>)
    requires
        !a.pending,
        !a.odd,
    ensures
        scan_from(a, markdown::in_cell(s), '|').bare == a.bare,
        scan_from(a, markdown::in_cell(s), '|').pending == markdown::disarms(markdown::in_cell(s)),
    decreases s.len(),
{
    if s.len() > 0 {
        reveal_strlit("\\|");
        reveal_strlit("<br>");
        let t = markdown::in_cell(s.drop_last());
        let r = markdown::in_cell(s);
        lemma_in_cell_scan(a, s.drop_last());
        if s.last() == '|' && !markdown::disarms(t) {
            assert(r.drop_last() =~= t.push('\\'));
            assert(r.drop_last().drop_last() =~= t);
            let b1 = scan_from(a, r.drop_last(), '|');
            assert(b1.pending && b1.bare == a.bare);
        } else if s.last() == '\n' {
            assert(r.drop_last() =~= t.push('<').push('b').push('r'));
            assert(r.drop_last().drop_last() =~= t.push('<').push('b'));
            assert(r.drop_last().drop_last().drop_last() =~= t.push('<'));
            assert(r.drop_last().drop_last().drop_last().drop_last() =~= t);
            let b1 = scan_from(a, r.drop_last().drop_last().drop_last(), '|');
            assert(!b1.pending && b1.bare == a.bare);
            let b2 = scan_from(a, r.drop_last().drop_last(), '|');
            assert(!b2.pending && b2.bare == a.bare);
            let b3 = scan_from(a, r.drop_last(), '|');
            assert(!b3.pending && b3.bare == a.bare);
        } else if s.last() != '\r' {
            assert(r.drop_last() =~= t);
        }
    }
}

proof fn lemma_in_cell_one_line(s: Seq<char>)
    ensures
        one_line(markdown::in_cell(s)),
    decreases s.len(),
{
    if s.len() > 0 {
        reveal_strlit("\\|");
        reveal_strlit("<br>");
        lemma_in_cell_one_line(s.drop_last());
        let t = markdown::in_cell(s.drop_last());
        lemma_one_line_concat(t, "\\|"@);
        lemma_one_line_concat(t, "<br>"@);
    }
}

/// Markdown that ends in a plain character is inert in a cell.
proof fn lemma_in_cell_inert(s: Seq<char>)
    requires
        s.len() > 0,
        s.last() == '`' || s.last() == ')',
    ensures
        inert(markdown::in_cell(s), '|'),
        one_line(markdown::in_cell(s)),
{
    lemma_in_cell_one_line(s);
    let r = markdown::in_cell(s);
    assert forall|a: Scan| !a.pending && !a.odd implies #[trigger] scan_from(a, r, '|') == a by {
        lemma_in_cell_scan(a, s.drop_last());
        assert(r.drop_last() =~= markdown::in_cell(s.drop_last()));
    }
}

proof fn lemma_span_in_cell(s: SpanV)
    ensures
        inert(markdown::span(s, true), '|'),
        one_line(markdown::span(s, true)),
    decreases s,
{
    reveal_strlit("<br>");
    reveal_strlit("*");
    reveal_strlit("**");
    match s {
        SpanV::Text(t) => {
            lemma_inert_plain("<br>"@, '|');
            lemma_escape_to_inert(t, t.len() as int, "<br>"@, '|');
            lemma_escape_to_one_line(t, t.len() as int, "<br>"@);
        },
        SpanV::Emphasis(i) => {
            lemma_inline_in_cell(i);
            lemma_inert_plain("*"@, '|');
            lemma_wrapped("*"@, markdown::inline_with(i, true));
        },
        SpanV::Strong(i) => {
            lemma_inline_in_cell(i);
            lemma_inert_plain("**"@, '|');
            lemma_wrapped("**"@, markdown::inline_with(i, true));
        },
        SpanV::Code(t) => {
            let n = markdown::longest_backtick_run(t);
            lemma_repeat_tick(n + 1);
            lemma_in_cell_inert(markdown::code_span(t));
        },
        SpanV::Link { text, href } => {
            reveal_strlit("[");
            reveal_strlit(")");
            reveal_strlit(" ");
            lemma_inline_in_cell(text);
            let target = "]("@ + markdown::escape_url(href) + ")"@;
            lemma_in_cell_inert(target);
            lemma_inert_plain("["@, '|');
            lemma_inert_plain(" "@, '|');
            lemma_escape_to_inert(href, href.len() as int, " "@, '|');
            lemma_escape_to_one_line(href, href.len() as int, " "@);
            let label = markdown::inline_with(text, true);
            let shown = if chars::is_blank(label) {
                markdown::escape_text(href)
            } else {
                label
            };
            lemma_inert_concat("["@, shown, '|');
            lemma_inert_concat("["@ + shown, markdown::in_cell(target), '|');
            lemma_one_line_concat("["@, shown);
            lemma_one_line_concat("["@ + shown, markdown::in_cell(target));
        },
        SpanV::LineBreak => {
            lemma_inert_plain("<br>"@, '|');
        },
    }
}

proof fn lemma_inline_in_cell(i: Seq<SpanV>)
    ensures
        inert(markdown::inline_with(i, true), '|'),
        one_line(markdown::inline_with(i, true)),
    decreases i,
{
    if i.len() > 0 {
        lemma_inline_in_cell(i.drop_last());
        lemma_span_in_cell(i.last());
        lemma_inert_concat(
            markdown::inline_with(i.drop_last(), true),
            markdown::span(i.last(), true),
            '|',
        );
        lemma_one_line_concat(
            markdown::inline_with(i.drop_last(), true),
            markdown::span(i.last(), true),
        );
    }
}

/// A cell stays one cell on one line, whatever it holds: no bare pipe and no
/// line feed is left in it.
pub proof fn text_cells_stay_cells(cell: Seq<SpanV>)
    ensures
        bare(markdown::inline_cell(cell), '|') == 0,
        one_line(markdown::inline_cell(cell)),
{
    lemma_inline_in_cell(cell);
    assert(scan_from(start(), markdown::inline_cell(cell), '|') == start());
}

proof fn lemma_join_bars(cells: Seq<Seq<char>>, a: Scan)
    requires
        forall|i: int| 0 <= i < cells.len() ==> inert(#[trigger] cells[i], '|'),
        !a.pending,
        !a.odd,
    ensures
        cells.len() > 0 ==> scan_from(a, chars::join(cells, " | "@), '|') == (Scan {
            bare: (a.bare + cells.len() - 1) as nat,
            ..a
        }),
        cells.len() == 0 ==> scan_from(a, chars::join(cells, " | "@), '|') == a,
    decreases cells.len(),
{
    if cells.len() == 1 {
        assert(inert(cells[0], '|'));
    } else if cells.len() > 1 {
        let head = cells.drop_last();
        assert forall|i: int| 0 <= i < head.len() implies inert(#[trigger] head[i], '|') by {
            assert(head[i] == cells[i]);
        }
        lemma_join_bars(head, a);
        let h = chars::join(head, " | "@);
        let b = scan_from(a, h, '|');
        lemma_scan_concat(a, h + " | "@, cells.last(), '|');
        lemma_scan_concat(a, h, " | "@, '|');
        lemma_separator(b);
        let c = Scan { bare: b.bare + 1, ..b };
        assert(inert(cells[cells.len() - 1], '|'));
        assert(scan_from(c, cells.last(), '|') == c);
    }
}

proof fn lemma_separator(a: Scan)
    requires
        !a.pending,
        !a.odd,
    ensures
        scan_from(a, " | "@, '|') == (Scan { bare: a.bare + 1, ..a }),
{
    reveal_strlit(" | ");
    let s = " | "@;
    assert(s.drop_last() =~= seq![' ', '|']);
    assert(s.drop_last().drop_last() =~= seq![' ']);
    assert(s.drop_last().drop_last().drop_last() =~= seq![]);
    assert(scan_from(a, s.drop_last().drop_last().drop_last(), '|') == a);
    assert(scan_from(a, s.drop_last().drop_last(), '|') == a);
    assert(scan_from(a, s.drop_last(), '|') == Scan { bare: a.bare + 1, ..a });
}

proof fn lemma_join_one_line(cells: Seq<Seq<char>>, sep: Seq<char>)
    requires
        forall|i: int| 0 <= i < cells.len() ==> one_line(#[trigger] cells[i]),
        one_line(sep),
    ensures
        one_line(chars::join(cells, sep)),
    decreases cells.len(),
{
    if cells.len() == 1 {
        assert(one_line(cells[0]));
    } else if cells.len() > 1 {
        let head = cells.drop_last();
        assert forall|i: int| 0 <= i < head.len() implies one_line(#[trigger] head[i]) by {
            assert(head[i] == cells[i]);
        }
        lemma_join_one_line(head, sep);
        assert(one_line(cells[cells.len() - 1]));
        lemma_one_line_concat(chars::join(head, sep), sep);
        lemma_one_line_concat(chars::join(head, sep) + sep, cells.last());
    }
}

pub(crate) proof fn lemma_pipe_row_one_line(cells: Seq<Seq<char>>)
    requires
        forall|i: int| 0 <= i < cells.len() ==> one_line(#[trigger] cells[i]),
    ensures
        one_line(markdown::pipe_row(cells)),
{
    reveal_strlit("| ");
    reveal_strlit(" |");
    reveal_strlit(" | ");
    lemma_join_one_line(cells, " | "@);
    lemma_one_line_concat("| "@, chars::join(cells, " | "@));
    lemma_one_line_concat("| "@ + chars::join(cells, " | "@), " |"@);
}

/// A line without line feeds in it comes out as it is, on a tight page too.
pub(crate) proof fn lemma_one_line_taken(p: Page, s: Sheet, t: Seq<char>)
    requires
        t.len() > 0,
        one_line(t),
    ensures
        markdown::line(p, s, t).truncated || !s.truncated && markdown::line(p, s, t).out == s.out
            + t + "\n"@,
{
    reveal_strlit("\n");
    lemma_one_line_tightened(markdown::tail(s.out), t);
    let a = s.out + t;
    assert(a.last() == t[t.len() - 1]);
    assert("\n"@.drop_last() =~= seq![]);
    assert(markdown::tightened(0, "\n"@.drop_last()) =~= seq![]);
    assert(markdown::tightened(0, "\n"@) =~= "\n"@);
}

proof fn lemma_one_line_tightened(run: nat, t: Seq<char>)
    requires
        one_line(t),
    ensures
        markdown::tightened(run, t) == t,
    decreases t.len(),
{
    if t.len() > 0 {
        let u = t.drop_last();
        assert forall|i: int| 0 <= i < u.len() implies #[trigger] u[i] != '\n' by {
            assert(u[i] == t[i]);
        }
        lemma_one_line_tightened(run, u);
        assert(t[t.len() - 1] == t.last());
        assert(u.push(t.last()) =~= t);
    }
}

/// Every row of a pipe table is one line with exactly as many columns as the
/// table is wide, whatever its cells hold.
pub proof fn rows_have_the_tables_width(cells: Seq<Seq<SpanV>>, width: nat)
    requires
        width > 0,
    ensures
        bare(markdown::pipe_row(markdown::pad_cells(cells, width)), '|') == width + 1,
        one_line(markdown::pipe_row(markdown::pad_cells(cells, width))),
{
    let row = markdown::pad_cells(cells, width);
    assert forall|i: int| 0 <= i < row.len() implies inert(#[trigger] row[i], '|') && one_line(
        row[i],
    ) by {
        if i < cells.len() {
            lemma_inline_in_cell(cells[i]);
        } else {
            assert(row[i] =~= seq![]);
        }
    }
    reveal_strlit("| ");
    reveal_strlit(" |");
    reveal_strlit(" | ");
    let open = "| "@;
    let close = " |"@;
    let body = chars::join(row, " | "@);
    let a0 = start();
    assert(open.drop_last() =~= seq!['|']);
    assert(open.drop_last().drop_last() =~= seq![]);
    assert(scan_from(a0, open.drop_last().drop_last(), '|') == a0);
    assert(scan_from(a0, open.drop_last(), '|') == Scan { bare: 1, ..a0 });
    let a1 = scan_from(a0, open, '|');
    assert(a1 == Scan { bare: 1, ..a0 });
    lemma_join_bars(row, a1);
    let a2 = scan_from(a1, body, '|');
    assert(close.drop_last() =~= seq![' ']);
    assert(close.drop_last().drop_last() =~= seq![]);
    assert(scan_from(a2, close.drop_last().drop_last(), '|') == a2);
    assert(scan_from(a2, close.drop_last(), '|') == a2);
    lemma_scan_concat(a0, open, body, '|');
    lemma_scan_concat(a0, open + body, close, '|');
    lemma_pipe_row_one_line(row);
}

/// `s` with each `c` replaced by `r`, character by character.
pub open spec fn swapped(s: Seq<char>, c: char, r: Seq<char>) -> Seq<char>
    decreases s.len(),
{
    if s.len() == 0 {
        seq![]
    } else {
        swapped(s.drop_last(), c, r) + (if s.last() == c {
            r
        } else {
            seq![s.last()]
        })
    }
}

pub(crate) proof fn lemma_swapped_concat(a: Seq<char>, b: Seq<char>, c: char, r: Seq<char>)
    ensures
        swapped(a + b, c, r) == swapped(a, c, r) + swapped(b, c, r),
    decreases b.len(),
{
    if b.len() == 0 {
        assert(a + b =~= a);
        assert(swapped(a, c, r) + swapped(b, c, r) =~= swapped(a, c, r));
    } else {
        lemma_swapped_concat(a, b.drop_last(), c, r);
        assert((a + b).drop_last() =~= a + b.drop_last());
        let x = if b.last() == c {
            r
        } else {
            seq![b.last()]
        };
        assert(swapped(a, c, r) + swapped(b.drop_last(), c, r) + x =~= swapped(a, c, r) + (swapped(
            b.drop_last(),
            c,
            r,
        ) + x));
    }
}

pub(crate) proof fn lemma_swapped_without(s: Seq<char>, c: char, r: Seq<char>)
    requires
        !s.contains(c),
    ensures
        swapped(s, c, r) == s,
    decreases s.len(),
{
    if s.len() > 0 {
        let t = s.drop_last();
        if t.contains(c) {
            let i = t.index_of(c);
            assert(s[i] == c);
        }
        lemma_swapped_without(t, c, r);
        assert(s[s.len() - 1] == s.last());
        assert(t + seq![s.last()] =~= s);
    }
}

pub(crate) proof fn lemma_swapped_one(x: char, c: char, r: Seq<char>)
    ensures
        swapped(seq![x], c, r) == (if x == c {
            r
        } else {
            seq![x]
        }),
{
    let s = seq![x];
    assert(s.drop_last() =~= seq![]);
    assert(swapped(s.drop_last(), c, r) =~= seq![]);
    assert(seq![] + r =~= r);
    assert(Seq::<char>::empty() + seq![x] =~= seq![x]);
}

pub(crate) proof fn lemma_replace_is_swapped(s: Seq<char>, c: char, r: Seq<char>)
    ensures
        chars::replace(s, seq![c], r) == swapped(s, c, r),
    decreases s.len(),
{
    let p = seq![c];
    chars::lemma_find_from(s, p, 0);
    match chars::find(s, p) {
        None => {
            if s.contains(c) {
                let i = s.index_of(c);
                assert(s.subrange(i, i + 1) =~= p);
                assert(chars::matches_at(s, p, i));
            }
            lemma_swapped_without(s, c, r);
        },
        Some(k) => {
            let head = s.take(k);
            let rest = s.skip(k + 1);
            assert(chars::matches_at(s, p, k));
            assert(s.subrange(k, k + 1)[0] == c);
            assert(s[k] == c);
            if head.contains(c) {
                let i = head.index_of(c);
                assert(s[i] == c);
                assert(s.subrange(i, i + 1) =~= p);
                assert(chars::matches_at(s, p, i));
            }
            lemma_swapped_without(head, c, r);
            lemma_replace_is_swapped(rest, c, r);
            chars::lemma_split_pieces(rest, c);
            let parts = chars::split(s, p);
            assert(parts == seq![head] + chars::split(rest, p));
            chars::lemma_join_front(parts, r);
            assert(parts.skip(1) =~= chars::split(rest, p));
            assert(s =~= head + seq![c] + rest);
            lemma_swapped_concat(head + seq![c], rest, c, r);
            lemma_swapped_concat(head, seq![c], c, r);
            lemma_swapped_one(c, c, r);
        },
    }
}

/// A front-matter value without its quotes.
pub open spec fn scalar_body(v: Seq<char>) -> Seq<char> {
    chars::replace(
        chars::replace(
            chars::replace(chars::replace(v, "\\"@, "\\\\"@), "\""@, "\\\""@),
            "\n"@,
            " "@,
        ),
        "\r"@,
        " "@,
    )
}

/// What one character of a front-matter value becomes.
pub open spec fn scalar_char(c: char) -> Seq<char> {
    if c == '\\' {
        seq!['\\', '\\']
    } else if c == '"' {
        seq!['\\', '"']
    } else if c == '\n' || c == '\r' {
        seq![' ']
    } else {
        seq![c]
    }
}

proof fn lemma_scalar_char(c: char)
    ensures
        swapped(
            swapped(
                swapped(swapped(seq![c], '\\', seq!['\\', '\\']), '"', seq!['\\', '"']),
                '\n',
                seq![' '],
            ),
            '\r',
            seq![' '],
        ) == scalar_char(c),
{
    lemma_swapped_one(c, '\\', seq!['\\', '\\']);
    if c == '\\' {
        let s = seq!['\\', '\\'];
        lemma_swapped_without(s, '"', seq!['\\', '"']);
        lemma_swapped_without(s, '\n', seq![' ']);
        lemma_swapped_without(s, '\r', seq![' ']);
    } else {
        lemma_swapped_one(c, '"', seq!['\\', '"']);
        if c == '"' {
            let s = seq!['\\', '"'];
            lemma_swapped_without(s, '\n', seq![' ']);
            lemma_swapped_without(s, '\r', seq![' ']);
        } else {
            lemma_swapped_one(c, '\n', seq![' ']);
            if c == '\n' {
                lemma_swapped_one(' ', '\r', seq![' ']);
            } else {
                lemma_swapped_one(c, '\r', seq![' ']);
            }
        }
    }
}

proof fn lemma_scalar_body(v: Seq<char>)
    ensures
        scalar_body(v) == swapped(
            swapped(
                swapped(swapped(v, '\\', seq!['\\', '\\']), '"', seq!['\\', '"']),
                '\n',
                seq![' '],
            ),
            '\r',
            seq![' '],
        ),
        v.len() > 0 ==> scalar_body(v) == scalar_body(v.drop_last()) + scalar_char(v.last()),
        v.len() == 0 ==> scalar_body(v).len() == 0,
    decreases v.len(),
{
    reveal_strlit("\\");
    reveal_strlit("\\\\");
    reveal_strlit("\"");
    reveal_strlit("\\\"");
    reveal_strlit("\n");
    reveal_strlit("\r");
    reveal_strlit(" ");
    assert("\\"@ =~= seq!['\\']);
    assert("\\\\"@ =~= seq!['\\', '\\']);
    assert("\""@ =~= seq!['"']);
    assert("\\\""@ =~= seq!['\\', '"']);
    assert("\n"@ =~= seq!['\n']);
    assert("\r"@ =~= seq!['\r']);
    assert(" "@ =~= seq![' ']);
    let a = swapped(v, '\\', seq!['\\', '\\']);
    let b = swapped(a, '"', seq!['\\', '"']);
    let c = swapped(b, '\n', seq![' ']);
    lemma_replace_is_swapped(v, '\\', seq!['\\', '\\']);
    lemma_replace_is_swapped(a, '"', seq!['\\', '"']);
    lemma_replace_is_swapped(b, '\n', seq![' ']);
    lemma_replace_is_swapped(c, '\r', seq![' ']);
    if v.len() > 0 {
        let t = v.drop_last();
        let one = seq![v.last()];
        assert(v =~= t + one);
        lemma_scalar_body(t);
        lemma_swapped_concat(t, one, '\\', seq!['\\', '\\']);
        let a1 = swapped(t, '\\', seq!['\\', '\\']);
        let a2 = swapped(one, '\\', seq!['\\', '\\']);
        lemma_swapped_concat(a1, a2, '"', seq!['\\', '"']);
        let b1 = swapped(a1, '"', seq!['\\', '"']);
        let b2 = swapped(a2, '"', seq!['\\', '"']);
        lemma_swapped_concat(b1, b2, '\n', seq![' ']);
        let c1 = swapped(b1, '\n', seq![' ']);
        let c2 = swapped(b2, '\n', seq![' ']);
        lemma_swapped_concat(c1, c2, '\r', seq![' ']);
        lemma_scalar_char(v.last());
    }
}

/// What a reader of escaped text has: the text so far, and whether the last
/// character was a backslash that takes the next one as it is.
pub struct Reading {
    pub text: Seq<char>,
    pub pending: bool,
}

pub open spec fn read_char(a: Reading, c: char) -> Reading {
    if !a.pending && c == '\\' {
        Reading { pending: true, ..a }
    } else {
        Reading { text: a.text.push(c), pending: false }
    }
}

pub open spec fn read_from(a: Reading, s: Seq<char>) -> Reading
    decreases s.len(),
{
    if s.len() == 0 {
        a
    } else {
        read_char(read_from(a, s.drop_last()), s.last())
    }
}

/// `s` as a reader takes it who undoes every backslash.
pub open spec fn unescaped(s: Seq<char>) -> Reading {
    read_from(Reading { text: seq![], pending: false }, s)
}

proof fn lemma_read_concat(a: Reading, s: Seq<char>, t: Seq<char>)
    ensures
        read_from(a, s + t) == read_from(read_from(a, s), t),
    decreases t.len(),
{
    if t.len() == 0 {
        assert(s + t =~= s);
    } else {
        assert((s + t).drop_last() =~= s + t.drop_last());
        lemma_read_concat(a, s, t.drop_last());
    }
}

proof fn lemma_read_short(a: Reading, c: char)
    requires
        !a.pending,
    ensures
        c != '\\' ==> read_from(a, seq![c]) == (Reading { text: a.text.push(c), pending: false }),
        read_from(a, seq!['\\', c]) == (Reading { text: a.text.push(c), pending: false }),
        read_from(a, seq![]) == a,
{
    let one = seq![c];
    assert(one.drop_last() =~= seq![]);
    assert(read_from(a, one.drop_last()) == a);
    let two = seq!['\\', c];
    let slash = seq!['\\'];
    assert(two.drop_last() =~= slash);
    assert(slash.drop_last() =~= seq![]);
    assert(read_from(a, slash.drop_last()) == a);
    assert(read_from(a, slash) == (Reading { pending: true, ..a }));
}

/// Text on one line: line feeds as spaces, carriage returns left out.
pub open spec fn on_one_line(s: Seq<char>) -> Seq<char>
    decreases s.len(),
{
    if s.len() == 0 {
        seq![]
    } else {
        let t = on_one_line(s.drop_last());
        if s.last() == '\r' {
            t
        } else if s.last() == '\n' {
            t.push(' ')
        } else {
            t.push(s.last())
        }
    }
}

proof fn lemma_read_escaped(s: Seq<char>, n: int)
    requires
        0 <= n <= s.len(),
    ensures
        unescaped(markdown::escape_to(s, n, seq![' '])) == (Reading {
            text: on_one_line(s.take(n)),
            pending: false,
        }),
    decreases n,
{
    let zero = Reading { text: seq![], pending: false };
    if n == 0 {
        assert(s.take(0) =~= seq![]);
    } else {
        lemma_read_escaped(s, n - 1);
        let head = markdown::escape_to(s, n - 1, seq![' ']);
        let c = s[n - 1];
        let a = unescaped(head);
        lemma_read_concat(zero, head, markdown::escape_at(s, n - 1, seq![' ']));
        lemma_read_short(a, c);
        lemma_read_short(a, ' ');
        assert(s.take(n).drop_last() =~= s.take(n - 1));
        assert(s.take(n).last() == c);
    }
}

/// Escaping loses nothing: a reader who undoes every backslash has the text
/// back, on one line.
pub proof fn escaped_text_reads_back(s: Seq<char>)
    ensures
        unescaped(markdown::escape_text(s)) == (Reading { text: on_one_line(s), pending: false }),
{
    reveal_strlit(" ");
    assert(" "@ =~= seq![' ']);
    lemma_read_escaped(s, s.len() as int);
    assert(s.take(s.len() as int) =~= s);
}

/// Text with each line feed and carriage return as a space.
pub open spec fn spaced_out(v: Seq<char>) -> Seq<char> {
    Seq::new(
        v.len(),
        |i: int|
            if v[i] == '\n' || v[i] == '\r' {
                ' '
            } else {
                v[i]
            },
    )
}

proof fn lemma_scalar_reads(v: Seq<char>)
    ensures
        inert(scalar_body(v), '"'),
        !scalar_body(v).contains('\n'),
        !scalar_body(v).contains('\r'),
        unescaped(scalar_body(v)) == (Reading { text: spaced_out(v), pending: false }),
    decreases v.len(),
{
    let zero = Reading { text: seq![], pending: false };
    lemma_scalar_body(v);
    if v.len() == 0 {
        assert(scalar_body(v) =~= seq![]);
        lemma_inert_empty('"');
        assert(spaced_out(v) =~= seq![]);
    } else {
        let t = v.drop_last();
        let c = v.last();
        lemma_scalar_reads(t);
        let head = scalar_body(t);
        let e = scalar_char(c);
        if c == '\\' || c == '"' {
            lemma_inert_escape(c, '"');
        } else {
            lemma_inert_char(e[0], '"');
        }
        lemma_inert_concat(head, e, '"');
        lemma_read_concat(zero, head, e);
        lemma_read_short(unescaped(head), c);
        lemma_read_short(unescaped(head), ' ');
        assert(spaced_out(v) =~= spaced_out(t).push(if c == '\n' || c == '\r' {
            ' '
        } else {
            c
        }));
        assert forall|x: char| x == '\n' || x == '\r' implies !#[trigger] scalar_body(v).contains(
            x,
        ) by {
            if scalar_body(v).contains(x) {
                let i = scalar_body(v).index_of(x);
                if i < head.len() {
                    assert(head[i] == x);
                } else {
                    assert(e[i - head.len()] == x);
                }
            }
        }
    }
}

/// A front-matter value cannot break out of its quotes: between them stands no
/// quote that is not escaped and no line break, and a reader who undoes the
/// backslashes has the value back, with spaces for its line breaks.
pub proof fn front_matter_values_stay_quoted(v: Seq<char>)
    ensures
        markdown::scalar(v) == seq!['"'] + scalar_body(v) + seq!['"'],
        inert(scalar_body(v), '"'),
        !scalar_body(v).contains('\n'),
        !scalar_body(v).contains('\r'),
        unescaped(scalar_body(v)) == (Reading { text: spaced_out(v), pending: false }),
{
    reveal_strlit("\"");
    assert("\""@ =~= seq!['"']);
    lemma_scalar_reads(v);
}

} // verus!

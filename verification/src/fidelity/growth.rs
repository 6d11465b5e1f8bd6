//! How a document is written: block by block, behind what is already there.

use vstd::prelude::*;
use crate::chars;
use crate::disclosure;
use crate::ir::{BlockV, DocumentV, SpanV, TableV};
use crate::markdown;
use crate::markdown::{Page, Sheet};
use crate::render::{FrontMatter, TableStyle};

verus! {

/// What is written on `r` begins with what is written on `s`.
pub open spec fn grows(s: Sheet, r: Sheet) -> bool {
    s.out.len() <= r.out.len() && r.out.take(s.out.len() as int) == s.out
}

proof fn lemma_same(s: Sheet, r: Sheet)
    requires
        r.out == s.out,
    ensures
        grows(s, r),
{
    assert(s.out.take(s.out.len() as int) =~= s.out);
}

proof fn lemma_grows(a: Sheet, b: Sheet, c: Sheet)
    requires
        grows(a, b),
        grows(b, c),
    ensures
        grows(a, c),
{
    assert(c.out.take(a.out.len() as int) =~= b.out.take(a.out.len() as int)) by {
        assert forall|i: int| 0 <= i < a.out.len() implies c.out[i] == b.out[i] by {
            assert(c.out.take(b.out.len() as int)[i] == b.out[i]);
        }
    }
}

proof fn lemma_push(p: Page, s: Sheet, t: Seq<char>)
    ensures
        grows(s, markdown::push(p, s, t)),
{
    let r = markdown::push(p, s, t);
    assert(s.out.take(s.out.len() as int) =~= s.out);
    let x = s.out + markdown::taken(p, s.out, t);
    assert(x.take(s.out.len() as int) =~= s.out);
}

proof fn lemma_line(p: Page, s: Sheet, t: Seq<char>)
    ensures
        grows(s, markdown::line(p, s, t)),
{
    let a = markdown::push(p, s, t);
    lemma_push(p, s, t);
    lemma_push(p, a, "\n"@);
    lemma_grows(s, a, markdown::line(p, s, t));
}

/// Writing on `b`, which began as `a`, one more line.
proof fn lemma_then(p: Page, a: Sheet, b: Sheet, t: Seq<char>)
    requires
        grows(a, b),
    ensures
        grows(a, markdown::line(p, b, t)),
{
    lemma_line(p, b, t);
    lemma_grows(a, b, markdown::line(p, b, t));
}

proof fn lemma_blank(p: Page, s: Sheet)
    ensures
        grows(s, markdown::blank(p, s)),
{
    lemma_push(p, s, "\n"@);
    lemma_same(s, s);
}

/// A block that is written whole or not at all.
proof fn lemma_whole(p: Page, s: Sheet, u: Sheet)
    requires
        grows(markdown::blank(p, s), u),
    ensures
        grows(s, markdown::blank(p, markdown::whole(s, u))),
{
    let z = markdown::blank(p, s);
    lemma_blank(p, s);
    lemma_grows(s, z, u);
    let w = markdown::whole(s, u);
    if u.truncated {
        lemma_same(s, w);
    }
    lemma_blank(p, w);
    lemma_grows(s, w, markdown::blank(p, w));
}

proof fn lemma_spaced_line(p: Page, s: Sheet, t: Seq<char>)
    ensures
        grows(s, markdown::spaced_line(p, s, t)),
{
    let z = markdown::blank(p, s);
    lemma_line(p, z, t);
    lemma_whole(p, s, markdown::line(p, z, t));
}

proof fn lemma_verbatim_line(p: Page, s: Sheet, t: Seq<char>)
    ensures
        grows(s, markdown::verbatim_line(p, s, t)),
{
    let z = markdown::blank(p, s);
    lemma_line(markdown::loose(p), z, t);
    lemma_whole(p, s, markdown::line(markdown::loose(p), z, t));
}

proof fn lemma_quote(p: Page, s: Sheet, ls: Seq<Seq<char>>)
    ensures
        grows(s, markdown::quote_lines(p, s, ls)),
    decreases ls.len(),
{
    if ls.len() == 0 {
        lemma_same(s, s);
    } else {
        lemma_quote(p, s, ls.drop_last());
        let a = markdown::quote_lines(p, s, ls.drop_last());
        lemma_then(p, s, a, ">"@);
        lemma_then(p, s, a, "> "@ + ls.last());
    }
}

proof fn lemma_hanging(p: Page, s: Sheet, ls: Seq<Seq<char>>, pad: Seq<char>)
    ensures
        grows(s, markdown::hanging_lines(p, s, ls, pad)),
    decreases ls.len(),
{
    if ls.len() == 0 {
        lemma_same(s, s);
    } else {
        lemma_hanging(p, s, ls.drop_last(), pad);
        let a = markdown::hanging_lines(p, s, ls.drop_last(), pad);
        lemma_then(p, s, a, pad + ls.last());
        lemma_push(p, a, "\n"@);
        lemma_grows(s, a, markdown::push(p, a, "\n"@));
    }
}

proof fn lemma_item(p: Page, s: Sheet, marker: Seq<char>, body: Seq<char>)
    ensures
        grows(s, markdown::item(p, s, marker, body)),
{
    let ls = chars::lines(chars::trim_end(body));
    if ls.len() == 0 {
        lemma_line(p, s, chars::trim_end(marker));
    } else {
        let a = markdown::line(p, s, marker + ls[0]);
        lemma_line(p, s, marker + ls[0]);
        lemma_hanging(p, a, ls.skip(1), chars::repeat(" "@, chars::byte_len(marker)));
        lemma_grows(s, a, markdown::item(p, s, marker, body));
    }
}

proof fn lemma_list(p: Page, s: Sheet, ordered: bool, items: Seq<Seq<BlockV>>)
    ensures
        grows(s, markdown::list(p, s, ordered, items)),
    decreases items.len(),
{
    if items.len() == 0 {
        lemma_same(s, s);
    } else {
        lemma_list(p, s, ordered, items.drop_last());
        let f = markdown::fragment(p, items.last());
        let t = markdown::list(p, s, ordered, items.drop_last());
        let a = markdown::joined(t, f);
        lemma_same(t, a);
        lemma_grows(s, t, a);
        let q = if markdown::any_verbatim(items.last()) {
            markdown::loose(p)
        } else {
            p
        };
        let m = markdown::list_marker(ordered, (items.len() - 1) as nat);
        lemma_item(q, a, m, f.out);
        lemma_grows(s, a, markdown::list(p, s, ordered, items));
    }
}

proof fn lemma_pipe_rows(p: Page, s: Sheet, rows: Seq<Seq<Seq<SpanV>>>, width: nat)
    ensures
        grows(s, markdown::pipe_rows(p, s, rows, width)),
    decreases rows.len(),
{
    if rows.len() == 0 {
        lemma_same(s, s);
    } else {
        lemma_pipe_rows(p, s, rows.drop_last(), width);
        lemma_then(
            p,
            s,
            markdown::pipe_rows(p, s, rows.drop_last(), width),
            markdown::pipe_row(markdown::pad_cells(rows.last(), width)),
        );
    }
}

proof fn lemma_csv_rows(p: Page, s: Sheet, rows: Seq<Seq<Seq<SpanV>>>, width: nat)
    ensures
        grows(s, markdown::csv_rows(p, s, rows, width)),
    decreases rows.len(),
{
    if rows.len() == 0 {
        lemma_same(s, s);
    } else {
        lemma_csv_rows(p, s, rows.drop_last(), width);
        lemma_then(
            p,
            s,
            markdown::csv_rows(p, s, rows.drop_last(), width),
            markdown::csv_row(markdown::pad_cells_raw(rows.last(), width)),
        );
    }
}

proof fn lemma_html_cells(
    p: Page,
    s: Sheet,
    cells: Seq<Seq<char>>,
    open: Seq<char>,
    close: Seq<char>,
)
    ensures
        grows(s, markdown::html_cells(p, s, cells, open, close)),
    decreases cells.len(),
{
    if cells.len() == 0 {
        lemma_same(s, s);
    } else {
        lemma_html_cells(p, s, cells.drop_last(), open, close);
        lemma_then(
            p,
            s,
            markdown::html_cells(p, s, cells.drop_last(), open, close),
            open + markdown::html_escape(cells.last()) + close,
        );
    }
}

proof fn lemma_html_rows(p: Page, s: Sheet, rows: Seq<Seq<Seq<SpanV>>>, width: nat)
    ensures
        grows(s, markdown::html_rows(p, s, rows, width)),
    decreases rows.len(),
{
    if rows.len() == 0 {
        lemma_same(s, s);
    } else {
        lemma_html_rows(p, s, rows.drop_last(), width);
        let a = markdown::html_rows(p, s, rows.drop_last(), width);
        lemma_then(p, s, a, "<tr>"@);
        let b = markdown::line(p, a, "<tr>"@);
        let cells = markdown::pad_cells_raw(rows.last(), width);
        lemma_html_cells(p, b, cells, "<td>"@, "</td>"@);
        let c = markdown::html_cells(p, b, cells, "<td>"@, "</td>"@);
        lemma_grows(s, b, c);
        lemma_then(p, s, c, "</tr>"@);
    }
}

proof fn lemma_styled(p: Page, s: Sheet, t: TableV, rows: Seq<Seq<Seq<SpanV>>>)
    ensures
        grows(s, markdown::gfm_table(p, s, t, rows)),
        grows(s, markdown::html_table(p, s, t, rows)),
        grows(s, markdown::csv_table(p, s, t, rows)),
{
    let w = t.width();
    let header = match t.header {
        Some(h) => markdown::pad_cells(h, w),
        None => Seq::new(w, |i: int| Seq::<char>::empty()),
    };
    let a = markdown::line(p, s, markdown::pipe_row(header));
    lemma_line(p, s, markdown::pipe_row(header));
    lemma_then(p, s, a, markdown::pipe_row(markdown::dashes(w)));
    let b = markdown::line(p, a, markdown::pipe_row(markdown::dashes(w)));
    lemma_pipe_rows(p, b, rows, w);
    lemma_grows(s, b, markdown::pipe_rows(p, b, rows, w));
    let c = markdown::line(p, s, "```csv"@);
    lemma_line(p, s, "```csv"@);
    let d = match t.header {
        Some(h) => markdown::line(p, c, markdown::csv_row(markdown::pad_cells_raw(h, w))),
        None => c,
    };
    if let Some(h) = t.header {
        lemma_then(p, s, c, markdown::csv_row(markdown::pad_cells_raw(h, w)));
    }
    lemma_csv_rows(p, d, rows, w);
    let e = markdown::csv_rows(p, d, rows, w);
    lemma_grows(s, d, e);
    lemma_then(p, s, e, "```"@);
    lemma_html(p, s, t, rows);
}

proof fn lemma_html(p: Page, s: Sheet, t: TableV, rows: Seq<Seq<Seq<SpanV>>>)
    ensures
        grows(s, markdown::html_table(p, s, t, rows)),
{
    let w = t.width();
    let a = markdown::line(p, s, "<table>"@);
    lemma_line(p, s, "<table>"@);
    let b = match t.header {
        Some(h) => markdown::line(
            p,
            markdown::html_cells(
                p,
                markdown::line(p, a, "<thead><tr>"@),
                markdown::pad_cells_raw(h, w),
                "<th>"@,
                "</th>"@,
            ),
            "</tr></thead>"@,
        ),
        None => a,
    };
    if let Some(h) = t.header {
        lemma_then(p, s, a, "<thead><tr>"@);
        let x = markdown::line(p, a, "<thead><tr>"@);
        let cells = markdown::pad_cells_raw(h, w);
        lemma_html_cells(p, x, cells, "<th>"@, "</th>"@);
        let y = markdown::html_cells(p, x, cells, "<th>"@, "</th>"@);
        lemma_grows(s, x, y);
        lemma_then(p, s, y, "</tr></thead>"@);
    }
    lemma_then(p, s, b, "<tbody>"@);
    let c = markdown::line(p, b, "<tbody>"@);
    lemma_html_rows(p, c, rows, w);
    let d = markdown::html_rows(p, c, rows, w);
    lemma_grows(s, c, d);
    lemma_then(p, s, d, "</tbody>"@);
    lemma_then(p, s, markdown::line(p, d, "</tbody>"@), "</table>"@);
}

proof fn lemma_table(p: Page, s: Sheet, t: TableV)
    ensures
        grows(s, markdown::table(p, s, t)),
{
    let a = markdown::table_caption(p, s, t);
    lemma_same(s, s);
    if let Some(c) = t.caption {
        if !chars::is_blank(c) {
            let l = "**"@ + markdown::escape_text(c) + "**"@;
            lemma_line(p, s, l);
            let x = markdown::line(p, s, l);
            lemma_blank(p, x);
            lemma_grows(s, x, markdown::blank(p, x));
        }
    }
    if t.width() > 0 {
        let cut = t.rows.len() > p.max_rows;
        let rows = if cut {
            t.rows.take(p.max_rows as int)
        } else {
            t.rows
        };
        lemma_styled(p, a, t, rows);
        let b = match p.opts.tables {
            TableStyle::Gfm => markdown::gfm_table(p, a, t, rows),
            TableStyle::Html => markdown::html_table(p, a, t, rows),
            TableStyle::Csv => markdown::csv_table(p, a, t, rows),
        };
        lemma_grows(s, a, b);
        if cut {
            let c = Sheet {
                warnings: b.warnings.push(markdown::rows_warning(p.max_rows, t.rows.len())),
                ..b
            };
            lemma_same(b, c);
            lemma_grows(s, b, c);
            lemma_blank(p, c);
            lemma_grows(s, c, markdown::blank(p, c));
            lemma_then(
                p,
                s,
                markdown::blank(p, c),
                "_… "@ + chars::decimal((t.rows.len() - p.max_rows) as nat)
                    + " further rows omitted_"@,
            );
        }
    }
}

proof fn lemma_code(p: Page, s: Sheet, language: Option<Seq<char>>, text: Seq<char>)
    ensures
        grows(s, markdown::code(p, s, language, text)),
{
    let fence = markdown::fence_for(text);
    let tag = match language {
        Some(l) => l,
        None => ""@,
    };
    let a = markdown::line(p, s, fence + tag);
    lemma_line(p, s, fence + tag);
    let inner = chars::trim_end_char(text, '\n');
    lemma_then(p, s, a, inner);
    lemma_then(p, s, markdown::line(p, a, inner), fence);
}

proof fn lemma_block(p: Page, s: Sheet, b: BlockV, extra: u8)
    ensures
        grows(s, markdown::block(p, s, b, extra)),
    decreases b, 0int,
{
    let z = markdown::blank(p, s);
    lemma_same(s, s);
    match b {
        BlockV::Heading { level, text } => lemma_spaced_line(
            p,
            s,
            chars::repeat("#"@, markdown::heading_level(level, p.opts.heading_offset, extra)) + " "@
                + markdown::inline(text),
        ),
        BlockV::Paragraph(text) => lemma_spaced_line(p, s, markdown::inline(text)),
        BlockV::List { ordered, items } => {
            lemma_list(p, z, ordered, items);
            lemma_whole(p, s, markdown::list(p, z, ordered, items));
        },
        BlockV::Table(t) => {
            lemma_table(p, z, t);
            lemma_whole(p, s, markdown::table(p, z, t));
        },
        BlockV::Code { language, text } => {
            lemma_code(markdown::loose(p), z, language, text);
            lemma_whole(p, s, markdown::code(markdown::loose(p), z, language, text));
        },
        BlockV::Quote(inner) => {
            let f = markdown::fragment(p, inner);
            let a = markdown::joined(z, f);
            let ls = chars::lines(f.out);
            lemma_same(z, a);
            lemma_quote(p, a, ls);
            lemma_grows(z, a, markdown::quote_lines(p, a, ls));
            lemma_whole(p, s, markdown::quote_lines(p, a, ls));
        },
        BlockV::Image(img) => lemma_spaced_line(p, s, markdown::image(img)),
        BlockV::Rule => lemma_spaced_line(p, s, "---"@),
        BlockV::Raw { markdown: m } => lemma_verbatim_line(p, s, chars::trim_end(m)),
        BlockV::RawHtml { html } => {
            lemma_verbatim_line(p, s, chars::trim_end(html));
            lemma_same(
                s,
                Sheet { warnings: s.warnings.push(markdown::dropped_html()), ..s },
            );
        },
        BlockV::Embedded { name, doc } => {
            let head = markdown::member_heading(p, name);
            let a = markdown::spaced_line(p, s, head);
            let more = markdown::sat2(extra);
            let c = markdown::blocks(p, a, doc.blocks, more);
            lemma_spaced_line(p, s, head);
            written_text_stays(p, a, doc.blocks, more);
            lemma_grows(s, a, c);
            lemma_blank(p, c);
            lemma_grows(s, c, markdown::blank(p, c));
        },
    }
}

/// Blocks are written behind what is already there, which stays as it is.
pub proof fn written_text_stays(p: Page, s: Sheet, bs: Seq<BlockV>, extra: u8)
    ensures
        grows(s, markdown::blocks(p, s, bs, extra)),
    decreases bs, 0int,
{
    if bs.len() == 0 {
        lemma_same(s, s);
    } else {
        let t = markdown::blocks(p, s, bs.drop_last(), extra);
        written_text_stays(p, s, bs.drop_last(), extra);
        lemma_block(p, t, bs.last(), extra);
        lemma_same(t, Sheet { truncated: true, ..t });
        lemma_grows(s, t, markdown::blocks(p, s, bs, extra));
    }
}

/// Blocks are written in their order: writing two runs of them is writing the first and
/// then the second.
pub proof fn blocks_follow_each_other(
    p: Page,
    s: Sheet,
    a: Seq<BlockV>,
    b: Seq<BlockV>,
    extra: u8,
)
    ensures
        markdown::blocks(p, s, a + b, extra) == markdown::blocks(
            p,
            markdown::blocks(p, s, a, extra),
            b,
            extra,
        ),
    decreases b.len(),
{
    if b.len() == 0 {
        assert(a + b =~= a);
    } else {
        blocks_follow_each_other(p, s, a, b.drop_last(), extra);
        assert((a + b).drop_last() =~= a + b.drop_last());
        assert((a + b).last() == b.last());
    }
}

/// Front matter comes first.
pub proof fn front_matter_comes_first(p: Page, d: DocumentV)
    ensures
        grows(markdown::front_matter(p, markdown::fresh(), d), markdown::body(p, d)),
{
    written_text_stays(p, markdown::front_matter(p, markdown::fresh(), d), d.blocks, 0);
}

/// A closing blank line on a page with too little room.
proof fn lemma_blank_cut(p: Page, q: Page, c: Sheet, d: Sheet)
    requires
        disclosure::roomier(p, q),
        grows(c, d),
        !c.truncated ==> c == d,
    ensures
        grows(markdown::blank(p, c), markdown::blank(q, d)),
{
    let x = markdown::blank(p, c);
    let y = markdown::blank(q, d);
    lemma_blank(q, d);
    lemma_grows(c, d, y);
    if x.truncated {
        lemma_same(x, c);
        lemma_grows(x, c, y);
    } else {
        disclosure::lemma_blank_whole(p, q, c);
        lemma_same(x, y);
    }
}

/// A block that is written whole or not at all, on a page with too little room.
proof fn lemma_whole_cut(p: Page, q: Page, s: Sheet, u: Sheet, v: Sheet)
    requires
        disclosure::roomier(p, q),
        grows(markdown::blank(q, s), v),
        !u.truncated ==> u == v,
    ensures
        grows(
            markdown::blank(p, markdown::whole(s, u)),
            markdown::blank(q, markdown::whole(s, v)),
        ),
{
    lemma_whole(q, s, v);
    let x = markdown::blank(p, markdown::whole(s, u));
    if u.truncated {
        lemma_same(x, s);
        lemma_grows(x, s, markdown::blank(q, markdown::whole(s, v)));
    } else {
        lemma_same(u, u);
        lemma_blank_cut(p, q, u, u);
    }
}

proof fn lemma_line_cut(p: Page, q: Page, s: Sheet, t: Seq<char>, verbatim: bool)
    requires
        disclosure::roomier(p, q),
    ensures
        !verbatim ==> grows(markdown::spaced_line(p, s, t), markdown::spaced_line(q, s, t)),
        verbatim ==> grows(markdown::verbatim_line(p, s, t), markdown::verbatim_line(q, s, t)),
{
    let a = if verbatim {
        markdown::loose(p)
    } else {
        p
    };
    let b = if verbatim {
        markdown::loose(q)
    } else {
        q
    };
    let y = markdown::blank(p, s);
    let z = markdown::blank(q, s);
    let u = markdown::line(a, y, t);
    let v = markdown::line(b, z, t);
    lemma_line(b, z, t);
    if !u.truncated {
        disclosure::lemma_line_whole(a, b, y, t);
        disclosure::lemma_blank_whole(p, q, s);
    }
    lemma_whole_cut(p, q, s, u, v);
}

proof fn lemma_code_whole(
    p: Page,
    q: Page,
    s: Sheet,
    language: Option<Seq<char>>,
    text: Seq<char>,
)
    requires
        disclosure::roomier(p, q),
        !markdown::code(p, s, language, text).truncated,
    ensures
        !s.truncated,
        markdown::code(q, s, language, text) == markdown::code(p, s, language, text),
{
    let fence = markdown::fence_for(text);
    let tag = match language {
        Some(l) => l,
        None => ""@,
    };
    let inner = chars::trim_end_char(text, '\n');
    let a = markdown::line(p, s, fence + tag);
    let c = markdown::line(p, a, inner);
    disclosure::lemma_line_whole(p, q, c, fence);
    disclosure::lemma_line_whole(p, q, a, inner);
    disclosure::lemma_line_whole(p, q, s, fence + tag);
}

proof fn lemma_block_cut(p: Page, q: Page, s: Sheet, b: BlockV, extra: u8)
    requires
        disclosure::roomier(p, q),
        !s.truncated,
    ensures
        grows(markdown::block(p, s, b, extra), markdown::block(q, s, b, extra)),
    decreases b, 0int,
{
    let y = markdown::blank(p, s);
    let z = markdown::blank(q, s);
    match b {
        BlockV::Heading { level, text } => lemma_line_cut(
            p,
            q,
            s,
            chars::repeat("#"@, markdown::heading_level(level, p.opts.heading_offset, extra)) + " "@
                + markdown::inline(text),
            false,
        ),
        BlockV::Paragraph(text) => {
            lemma_same(s, s);
            lemma_line_cut(p, q, s, markdown::inline(text), false);
        },
        BlockV::List { ordered, items } => {
            let u = markdown::list(p, y, ordered, items);
            let v = markdown::list(q, z, ordered, items);
            lemma_list(q, z, ordered, items);
            if !u.truncated {
                disclosure::lemma_list_whole(p, q, y, ordered, items);
                disclosure::lemma_blank_whole(p, q, s);
            }
            lemma_whole_cut(p, q, s, u, v);
        },
        BlockV::Table(t) => {
            let u = markdown::table(p, y, t);
            let v = markdown::table(q, z, t);
            lemma_table(q, z, t);
            if !u.truncated {
                disclosure::lemma_table_whole(p, q, y, t);
                disclosure::lemma_blank_whole(p, q, s);
            }
            lemma_whole_cut(p, q, s, u, v);
        },
        BlockV::Code { language, text } => {
            let m = markdown::loose(p);
            let n = markdown::loose(q);
            let u = markdown::code(m, y, language, text);
            let v = markdown::code(n, z, language, text);
            lemma_code(n, z, language, text);
            if !u.truncated {
                lemma_code_whole(m, n, y, language, text);
                disclosure::lemma_blank_whole(p, q, s);
            }
            lemma_whole_cut(p, q, s, u, v);
        },
        BlockV::Quote(inner) => {
            let f = markdown::fragment(p, inner);
            let g = markdown::fragment(q, inner);
            let c = markdown::joined(y, f);
            let d = markdown::joined(z, g);
            let u = markdown::quote_lines(p, c, chars::lines(f.out));
            let v = markdown::quote_lines(q, d, chars::lines(g.out));
            lemma_same(z, d);
            lemma_quote(q, d, chars::lines(g.out));
            lemma_grows(z, d, v);
            if !u.truncated {
                disclosure::lemma_quote_whole(p, q, c, chars::lines(f.out));
                disclosure::lemma_fragment_whole(p, q, inner);
                disclosure::lemma_blank_whole(p, q, s);
            }
            lemma_whole_cut(p, q, s, u, v);
        },
        BlockV::Image(img) => lemma_line_cut(p, q, s, markdown::image(img), false),
        BlockV::Rule => lemma_line_cut(p, q, s, "---"@, false),
        BlockV::Raw { markdown: m } => lemma_line_cut(p, q, s, chars::trim_end(m), true),
        BlockV::RawHtml { html } => {
            let w = Sheet { warnings: s.warnings.push(markdown::dropped_html()), ..s };
            lemma_same(w, w);
            lemma_line_cut(p, q, s, chars::trim_end(html), true);
        },
        BlockV::Embedded { name, doc } => {
            let head = markdown::member_heading(p, name);
            let more = markdown::sat2(extra);
            let a = markdown::spaced_line(p, s, head);
            let e = markdown::spaced_line(q, s, head);
            let c = markdown::blocks(p, a, doc.blocks, more);
            let d = markdown::blocks(q, e, doc.blocks, more);
            lemma_line_cut(p, q, s, head, false);
            written_text_stays(q, e, doc.blocks, more);
            if a.truncated {
                disclosure::lemma_blocks_keep_truncation(p, a, doc.blocks, more);
                lemma_stuck(p, a, doc.blocks, more);
                lemma_grows(a, e, d);
                lemma_same(c, a);
                lemma_grows(c, a, d);
            } else {
                disclosure::lemma_spaced_line_whole(p, q, s, head);
                cut_blocks_are_a_beginning(p, q, a, doc.blocks, more);
                if !c.truncated {
                    disclosure::lemma_blocks_whole(p, q, a, doc.blocks, more);
                }
            }
            lemma_blank_cut(p, q, c, d);
        },
    }
}

/// Nothing more is written once the room has run out.
proof fn lemma_stuck(p: Page, s: Sheet, bs: Seq<BlockV>, extra: u8)
    requires
        s.truncated,
    ensures
        markdown::blocks(p, s, bs, extra).out == s.out,
    decreases bs.len(),
{
    if bs.len() > 0 {
        lemma_stuck(p, s, bs.drop_last(), extra);
        disclosure::lemma_blocks_keep_truncation(p, s, bs.drop_last(), extra);
    }
}

/// Where a page has too little room for the blocks, it holds the beginning of what a
/// roomier page holds.
pub proof fn cut_blocks_are_a_beginning(p: Page, q: Page, s: Sheet, bs: Seq<BlockV>, extra: u8)
    requires
        disclosure::roomier(p, q),
        !s.truncated,
    ensures
        grows(markdown::blocks(p, s, bs, extra), markdown::blocks(q, s, bs, extra)),
    decreases bs, 0int,
{
    if bs.len() == 0 {
        lemma_same(s, s);
    } else {
        let before = bs.drop_last();
        let t = markdown::blocks(p, s, before, extra);
        let u = markdown::blocks(q, s, before, extra);
        let x = markdown::blocks(p, s, bs, extra);
        let y = markdown::blocks(q, s, bs, extra);
        cut_blocks_are_a_beginning(p, q, s, before, extra);
        lemma_block(q, u, bs.last(), extra);
        lemma_same(u, Sheet { truncated: true, ..u });
        assert(grows(u, y));
        if markdown::full(p, t) {
            lemma_same(x, t);
            lemma_grows(x, t, u);
            lemma_grows(x, u, y);
        } else {
            disclosure::lemma_blocks_whole(p, q, s, before, extra);
            lemma_block_cut(p, q, t, bs.last(), extra);
        }
    }
}

proof fn lemma_front_cut(
    p: Page,
    q: Page,
    pairs: Seq<(Seq<char>, Seq<char>)>,
    fence: Seq<char>,
    sep: Seq<char>,
)
    requires
        disclosure::roomier(p, q),
    ensures
        ({
            let a = markdown::front_block(p, markdown::fresh(), pairs, fence, sep);
            let b = markdown::front_block(q, markdown::fresh(), pairs, fence, sep);
            grows(a, b) && (!a.truncated ==> a == b)
        }),
{
    let s = markdown::fresh();
    let a = markdown::front_block(p, s, pairs, fence, sep);
    if !a.truncated {
        disclosure::lemma_front_block_whole(p, q, s, pairs, fence, sep);
        lemma_same(a, a);
    } else if pairs.len() > 0 {
        let c = markdown::line(p, s, fence);
        let d = markdown::pair_lines(p, c, pairs, sep);
        let u = markdown::line(p, d, fence);
        let e = markdown::line(q, s, fence);
        let f = markdown::pair_lines(q, e, pairs, sep);
        let v = markdown::line(q, f, fence);
        assert(markdown::blank(q, s) == s);
        assert(grows(s, v)) by {
            assert(v.out.take(0) =~= s.out);
        }
        if !u.truncated {
            disclosure::lemma_line_whole(p, q, d, fence);
            disclosure::lemma_pair_lines_whole(p, q, c, pairs, sep);
            disclosure::lemma_line_whole(p, q, s, fence);
        }
        lemma_whole_cut(p, q, s, u, v);
    }
}

/// Where a page has too little room for a document, it holds the beginning of what a
/// roomier page holds.
pub proof fn cut_documents_are_a_beginning(p: Page, q: Page, d: DocumentV)
    requires
        disclosure::roomier(p, q),
    ensures
        grows(markdown::body(p, d), markdown::body(q, d)),
{
    let pairs = markdown::front_pairs(d.title, d.metadata);
    let f = markdown::front_matter(p, markdown::fresh(), d);
    let g = markdown::front_matter(q, markdown::fresh(), d);
    match p.opts.front_matter {
        FrontMatter::Off => {
            lemma_same(f, g);
        },
        FrontMatter::Yaml => lemma_front_cut(p, q, pairs, "---"@, ": "@),
        FrontMatter::Toml => lemma_front_cut(p, q, pairs, "+++"@, " = "@),
    }
    written_text_stays(q, g, d.blocks, 0);
    if f.truncated {
        lemma_stuck(p, f, d.blocks, 0);
        lemma_same(markdown::body(p, d), f);
        lemma_grows(markdown::body(p, d), f, g);
        lemma_grows(markdown::body(p, d), g, markdown::body(q, d));
    } else {
        cut_blocks_are_a_beginning(p, q, f, d.blocks, 0);
    }
}

} // verus!

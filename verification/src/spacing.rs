//! How the blank lines of a document relate to those of its parts.

use vstd::prelude::*;
use crate::chars;
use crate::guarantees;
use crate::ir;
use crate::ir::{BlockV, DocumentV, SpanV, TableV};
use crate::markdown;
use crate::markdown::{Page, Sheet};
use crate::render;
use crate::render::{FrontMatter, TableStyle};

verus! {

/// The text with no more than two line feeds in a row.
pub open spec fn collapsed(s: Seq<char>) -> Seq<char> {
    markdown::tightened(0, s)
}

proof fn lemma_concat(run: nat, a: Seq<char>, b: Seq<char>)
    ensures
        markdown::run_after(run, a + b) == markdown::run_after(markdown::run_after(run, a), b),
        markdown::tightened(run, a + b) == markdown::tightened(run, a) + markdown::tightened(
            markdown::run_after(run, a),
            b,
        ),
    decreases b.len(),
{
    if b.len() == 0 {
        assert(a + b =~= a);
    } else {
        assert((a + b).drop_last() =~= a + b.drop_last());
        lemma_concat(run, a, b.drop_last());
    }
}

/// What is tight stays as it is.
proof fn lemma_tightened_twice(run: nat, t: Seq<char>)
    requires
        run <= 2,
    ensures
        markdown::run_after(run, t) <= 2,
        markdown::run_after(run, markdown::tightened(run, t)) == markdown::run_after(run, t),
        markdown::tightened(run, markdown::tightened(run, t)) == markdown::tightened(run, t),
    decreases t.len(),
{
    if t.len() > 0 {
        lemma_tightened_twice(run, t.drop_last());
        let k = markdown::tightened(run, t.drop_last());
        assert(k.push(t.last()).drop_last() =~= k);
    }
}

/// What has no three line feeds in a row is taken as it is.
proof fn lemma_calm_taken(out: Seq<char>, t: Seq<char>)
    requires
        guarantees::no_triple(out + t),
    ensures
        guarantees::no_triple(out),
        markdown::tightened(markdown::tail(out), t) == t,
    decreases t.len(),
{
    if t.len() == 0 {
        assert(out + t =~= out);
    } else {
        let u = t.drop_last();
        let a = out + t;
        let b = out + u;
        assert forall|i: int| 0 <= i && i + 2 < b.len() implies !(#[trigger] b[i] == '\n' && b[i
            + 1] == '\n' && b[i + 2] == '\n') by {
            assert(a[i] == b[i]);
            assert(a[i + 1] == b[i + 1]);
            assert(a[i + 2] == b[i + 2]);
        }
        lemma_calm_taken(out, u);
        render::lemma_tail_after(out, u);
        guarantees::lemma_tail(b);
        if t.last() == '\n' && markdown::run_after(markdown::tail(out), u) >= 2 {
            let n = b.len() as int;
            assert(a[n - 2] == b[n - 2] && a[n - 1] == b[n - 1] && a[n] == '\n');
        }
        assert(u.push(t.last()) =~= t);
    }
}

/// Two sheets that differ in runs of line feeds at most.
pub open spec fn alike(s: Sheet, r: Sheet) -> bool {
    &&& s.spent == r.spent
    &&& s.truncated == r.truncated
    &&& s.warnings == r.warnings
    &&& s.out.len() == 0 <==> r.out.len() == 0
    &&& markdown::tail(s.out) == markdown::tail(r.out)
    &&& collapsed(s.out) == collapsed(r.out)
    &&& guarantees::no_triple(r.out) ==> s.out == r.out
}

proof fn lemma_push_alike(p: Page, s: Sheet, r: Sheet, t: Seq<char>)
    requires
        alike(s, r),
    ensures
        alike(markdown::push(p, s, t), markdown::push(markdown::loose(p), r, t)),
{
    let run = markdown::tail(s.out);
    let k = markdown::taken(p, s.out, t);
    guarantees::lemma_tail(s.out);
    render::lemma_tail_after(seq![], s.out);
    render::lemma_tail_after(seq![], r.out);
    assert(seq![] + s.out =~= s.out);
    assert(seq![] + r.out =~= r.out);
    lemma_tightened_twice(run, t);
    lemma_concat(0, s.out, k);
    lemma_concat(0, r.out, t);
    render::lemma_tail_after(s.out, t);
    render::lemma_tail_after(r.out, t);
    render::lemma_tail_tightened(s.out, t);
    if t.len() > 0 && s.out.len() == 0 {
        lemma_kept(t);
    }
    if guarantees::no_triple(r.out + t) {
        lemma_calm_taken(r.out, t);
    }
}

/// A first character is never left out.
proof fn lemma_kept(t: Seq<char>)
    requires
        t.len() > 0,
    ensures
        collapsed(t).len() > 0,
    decreases t.len(),
{
    if t.len() > 1 {
        lemma_kept(t.drop_last());
    }
}

proof fn lemma_line_alike(p: Page, s: Sheet, r: Sheet, t: Seq<char>)
    requires
        alike(s, r),
    ensures
        alike(markdown::line(p, s, t), markdown::line(markdown::loose(p), r, t)),
{
    lemma_push_alike(p, s, r, t);
    lemma_push_alike(
        p,
        markdown::push(p, s, t),
        markdown::push(markdown::loose(p), r, t),
        "\n"@,
    );
}

proof fn lemma_blank_alike(p: Page, s: Sheet, r: Sheet)
    requires
        alike(s, r),
    ensures
        alike(markdown::blank(p, s), markdown::blank(markdown::loose(p), r)),
{
    lemma_push_alike(p, s, r, "\n"@);
}

/// The same where a block ends.
proof fn lemma_close_alike(p: Page, s: Sheet, r: Sheet, u: Sheet, v: Sheet)
    requires
        alike(s, r),
        alike(u, v),
    ensures
        alike(
            markdown::blank(p, markdown::whole(s, u)),
            markdown::blank(markdown::loose(p), markdown::whole(r, v)),
        ),
{
    lemma_blank_alike(p, markdown::whole(s, u), markdown::whole(r, v));
}

proof fn lemma_spaced_line_alike(p: Page, s: Sheet, r: Sheet, t: Seq<char>)
    requires
        alike(s, r),
    ensures
        alike(markdown::spaced_line(p, s, t), markdown::spaced_line(markdown::loose(p), r, t)),
{
    let q = markdown::loose(p);
    lemma_blank_alike(p, s, r);
    lemma_line_alike(p, markdown::blank(p, s), markdown::blank(q, r), t);
    lemma_close_alike(
        p,
        s,
        r,
        markdown::line(p, markdown::blank(p, s), t),
        markdown::line(q, markdown::blank(q, r), t),
    );
}

proof fn lemma_verbatim_line_alike(p: Page, s: Sheet, r: Sheet, t: Seq<char>)
    requires
        alike(s, r),
    ensures
        alike(markdown::verbatim_line(p, s, t), markdown::verbatim_line(markdown::loose(p), r, t)),
{
    let q = markdown::loose(p);
    assert(markdown::loose(q) == q);
    lemma_blank_alike(p, s, r);
    lemma_line_alike(q, markdown::blank(p, s), markdown::blank(q, r), t);
    lemma_close_alike(
        p,
        s,
        r,
        markdown::line(q, markdown::blank(p, s), t),
        markdown::line(q, markdown::blank(q, r), t),
    );
}

proof fn lemma_quote_alike(p: Page, s: Sheet, r: Sheet, ls: Seq<Seq<char>>)
    requires
        alike(s, r),
    ensures
        alike(markdown::quote_lines(p, s, ls), markdown::quote_lines(markdown::loose(p), r, ls)),
    decreases ls.len(),
{
    if ls.len() > 0 {
        lemma_quote_alike(p, s, r, ls.drop_last());
        let t = if ls.last().len() == 0 {
            ">"@
        } else {
            "> "@ + ls.last()
        };
        lemma_line_alike(
            p,
            markdown::quote_lines(p, s, ls.drop_last()),
            markdown::quote_lines(markdown::loose(p), r, ls.drop_last()),
            t,
        );
    }
}

proof fn lemma_hanging_alike(p: Page, s: Sheet, r: Sheet, ls: Seq<Seq<char>>, pad: Seq<char>)
    requires
        alike(s, r),
    ensures
        alike(
            markdown::hanging_lines(p, s, ls, pad),
            markdown::hanging_lines(markdown::loose(p), r, ls, pad),
        ),
    decreases ls.len(),
{
    if ls.len() > 0 {
        let before = ls.drop_last();
        lemma_hanging_alike(p, s, r, before, pad);
        let a = markdown::hanging_lines(p, s, before, pad);
        let b = markdown::hanging_lines(markdown::loose(p), r, before, pad);
        lemma_push_alike(p, a, b, "\n"@);
        lemma_line_alike(p, a, b, pad + ls.last());
    }
}

proof fn lemma_item_alike(p: Page, s: Sheet, r: Sheet, marker: Seq<char>, body: Seq<char>)
    requires
        alike(s, r),
    ensures
        alike(
            markdown::item(p, s, marker, body),
            markdown::item(markdown::loose(p), r, marker, body),
        ),
{
    let ls = chars::lines(chars::trim_end(body));
    if ls.len() == 0 {
        lemma_line_alike(p, s, r, chars::trim_end(marker));
    } else {
        lemma_line_alike(p, s, r, marker + ls[0]);
        lemma_hanging_alike(
            p,
            markdown::line(p, s, marker + ls[0]),
            markdown::line(markdown::loose(p), r, marker + ls[0]),
            ls.skip(1),
            chars::repeat(" "@, chars::byte_len(marker)),
        );
    }
}

proof fn lemma_list_alike(p: Page, s: Sheet, r: Sheet, ordered: bool, items: Seq<Seq<BlockV>>)
    requires
        alike(s, r),
    ensures
        alike(
            markdown::list(p, s, ordered, items),
            markdown::list(markdown::loose(p), r, ordered, items),
        ),
    decreases items.len(),
{
    if items.len() > 0 {
        let q = markdown::loose(p);
        assert(markdown::loose(q) == q);
        let before = items.drop_last();
        lemma_list_alike(p, s, r, ordered, before);
        let f = markdown::fragment(p, items.last());
        assert(f == markdown::fragment(q, items.last()));
        let a = markdown::joined(markdown::list(p, s, ordered, before), f);
        let b = markdown::joined(markdown::list(q, r, ordered, before), f);
        let m = markdown::list_marker(ordered, (items.len() - 1) as nat);
        lemma_item_alike(p, a, b, m, f.out);
        lemma_item_alike(q, a, b, m, f.out);
    }
}

proof fn lemma_pipe_rows_alike(
    p: Page,
    s: Sheet,
    r: Sheet,
    rows: Seq<Seq<Seq<SpanV>>>,
    width: nat,
)
    requires
        alike(s, r),
    ensures
        alike(
            markdown::pipe_rows(p, s, rows, width),
            markdown::pipe_rows(markdown::loose(p), r, rows, width),
        ),
    decreases rows.len(),
{
    if rows.len() > 0 {
        let before = rows.drop_last();
        lemma_pipe_rows_alike(p, s, r, before, width);
        lemma_line_alike(
            p,
            markdown::pipe_rows(p, s, before, width),
            markdown::pipe_rows(markdown::loose(p), r, before, width),
            markdown::pipe_row(markdown::pad_cells(rows.last(), width)),
        );
    }
}

proof fn lemma_html_cells_alike(
    p: Page,
    s: Sheet,
    r: Sheet,
    cells: Seq<Seq<char>>,
    open: Seq<char>,
    close: Seq<char>,
)
    requires
        alike(s, r),
    ensures
        alike(
            markdown::html_cells(p, s, cells, open, close),
            markdown::html_cells(markdown::loose(p), r, cells, open, close),
        ),
    decreases cells.len(),
{
    if cells.len() > 0 {
        let before = cells.drop_last();
        lemma_html_cells_alike(p, s, r, before, open, close);
        lemma_line_alike(
            p,
            markdown::html_cells(p, s, before, open, close),
            markdown::html_cells(markdown::loose(p), r, before, open, close),
            open + markdown::html_escape(cells.last()) + close,
        );
    }
}

proof fn lemma_html_rows_alike(
    p: Page,
    s: Sheet,
    r: Sheet,
    rows: Seq<Seq<Seq<SpanV>>>,
    width: nat,
)
    requires
        alike(s, r),
    ensures
        alike(
            markdown::html_rows(p, s, rows, width),
            markdown::html_rows(markdown::loose(p), r, rows, width),
        ),
    decreases rows.len(),
{
    if rows.len() > 0 {
        let q = markdown::loose(p);
        let before = rows.drop_last();
        let cells = markdown::pad_cells_raw(rows.last(), width);
        lemma_html_rows_alike(p, s, r, before, width);
        let a = markdown::html_rows(p, s, before, width);
        let b = markdown::html_rows(q, r, before, width);
        lemma_line_alike(p, a, b, "<tr>"@);
        let c = markdown::line(p, a, "<tr>"@);
        let d = markdown::line(q, b, "<tr>"@);
        lemma_html_cells_alike(p, c, d, cells, "<td>"@, "</td>"@);
        lemma_line_alike(
            p,
            markdown::html_cells(p, c, cells, "<td>"@, "</td>"@),
            markdown::html_cells(q, d, cells, "<td>"@, "</td>"@),
            "</tr>"@,
        );
    }
}

proof fn lemma_csv_rows_alike(
    p: Page,
    s: Sheet,
    r: Sheet,
    rows: Seq<Seq<Seq<SpanV>>>,
    width: nat,
)
    requires
        alike(s, r),
    ensures
        alike(
            markdown::csv_rows(p, s, rows, width),
            markdown::csv_rows(markdown::loose(p), r, rows, width),
        ),
    decreases rows.len(),
{
    if rows.len() > 0 {
        let before = rows.drop_last();
        lemma_csv_rows_alike(p, s, r, before, width);
        lemma_line_alike(
            p,
            markdown::csv_rows(p, s, before, width),
            markdown::csv_rows(markdown::loose(p), r, before, width),
            markdown::csv_row(markdown::pad_cells_raw(rows.last(), width)),
        );
    }
}

proof fn lemma_gfm_alike(p: Page, s: Sheet, r: Sheet, t: TableV, rows: Seq<Seq<Seq<SpanV>>>)
    requires
        alike(s, r),
    ensures
        alike(
            markdown::gfm_table(p, s, t, rows),
            markdown::gfm_table(markdown::loose(p), r, t, rows),
        ),
{
    let q = markdown::loose(p);
    let w = t.width();
    let header = match t.header {
        Some(h) => markdown::pad_cells(h, w),
        None => Seq::new(w, |i: int| Seq::<char>::empty()),
    };
    let first = markdown::pipe_row(header);
    let second = markdown::pipe_row(markdown::dashes(w));
    lemma_line_alike(p, s, r, first);
    lemma_line_alike(p, markdown::line(p, s, first), markdown::line(q, r, first), second);
    lemma_pipe_rows_alike(
        p,
        markdown::line(p, markdown::line(p, s, first), second),
        markdown::line(q, markdown::line(q, r, first), second),
        rows,
        w,
    );
}

/// The head of an HTML table.
spec fn html_head(p: Page, s: Sheet, t: TableV) -> Sheet {
    match t.header {
        Some(h) => markdown::line(
            p,
            markdown::html_cells(
                p,
                markdown::line(p, s, "<thead><tr>"@),
                markdown::pad_cells_raw(h, t.width()),
                "<th>"@,
                "</th>"@,
            ),
            "</tr></thead>"@,
        ),
        None => s,
    }
}

proof fn lemma_html_head_alike(p: Page, s: Sheet, r: Sheet, t: TableV)
    requires
        alike(s, r),
    ensures
        alike(html_head(p, s, t), html_head(markdown::loose(p), r, t)),
{
    if let Some(h) = t.header {
        let q = markdown::loose(p);
        let cells = markdown::pad_cells_raw(h, t.width());
        lemma_line_alike(p, s, r, "<thead><tr>"@);
        let a = markdown::line(p, s, "<thead><tr>"@);
        let b = markdown::line(q, r, "<thead><tr>"@);
        lemma_html_cells_alike(p, a, b, cells, "<th>"@, "</th>"@);
        lemma_line_alike(
            p,
            markdown::html_cells(p, a, cells, "<th>"@, "</th>"@),
            markdown::html_cells(q, b, cells, "<th>"@, "</th>"@),
            "</tr></thead>"@,
        );
    }
}

proof fn lemma_html_alike(p: Page, s: Sheet, r: Sheet, t: TableV, rows: Seq<Seq<Seq<SpanV>>>)
    requires
        alike(s, r),
    ensures
        alike(
            markdown::html_table(p, s, t, rows),
            markdown::html_table(markdown::loose(p), r, t, rows),
        ),
{
    let q = markdown::loose(p);
    let w = t.width();
    lemma_line_alike(p, s, r, "<table>"@);
    let a0 = markdown::line(p, s, "<table>"@);
    let b0 = markdown::line(q, r, "<table>"@);
    lemma_html_head_alike(p, a0, b0, t);
    let a1 = html_head(p, a0, t);
    let b1 = html_head(q, b0, t);
    lemma_line_alike(p, a1, b1, "<tbody>"@);
    let a2 = markdown::line(p, a1, "<tbody>"@);
    let b2 = markdown::line(q, b1, "<tbody>"@);
    lemma_html_rows_alike(p, a2, b2, rows, w);
    let a3 = markdown::html_rows(p, a2, rows, w);
    let b3 = markdown::html_rows(q, b2, rows, w);
    lemma_line_alike(p, a3, b3, "</tbody>"@);
    let a4 = markdown::line(p, a3, "</tbody>"@);
    let b4 = markdown::line(q, b3, "</tbody>"@);
    lemma_line_alike(p, a4, b4, "</table>"@);
}

proof fn lemma_csv_alike(p: Page, s: Sheet, r: Sheet, t: TableV, rows: Seq<Seq<Seq<SpanV>>>)
    requires
        alike(s, r),
    ensures
        alike(
            markdown::csv_table(p, s, t, rows),
            markdown::csv_table(markdown::loose(p), r, t, rows),
        ),
{
    let q = markdown::loose(p);
    let w = t.width();
    lemma_line_alike(p, s, r, "```csv"@);
    let a0 = markdown::line(p, s, "```csv"@);
    let b0 = markdown::line(q, r, "```csv"@);
    if let Some(h) = t.header {
        lemma_line_alike(p, a0, b0, markdown::csv_row(markdown::pad_cells_raw(h, w)));
    }
    let a1 = match t.header {
        Some(h) => markdown::line(p, a0, markdown::csv_row(markdown::pad_cells_raw(h, w))),
        None => a0,
    };
    let b1 = match t.header {
        Some(h) => markdown::line(q, b0, markdown::csv_row(markdown::pad_cells_raw(h, w))),
        None => b0,
    };
    lemma_csv_rows_alike(p, a1, b1, rows, w);
    lemma_line_alike(
        p,
        markdown::csv_rows(p, a1, rows, w),
        markdown::csv_rows(q, b1, rows, w),
        "```"@,
    );
}

proof fn lemma_caption_alike(p: Page, s: Sheet, r: Sheet, t: TableV)
    requires
        alike(s, r),
    ensures
        alike(markdown::table_caption(p, s, t), markdown::table_caption(markdown::loose(p), r, t)),
{
    if let Some(c) = t.caption {
        let l = "**"@ + markdown::escape_text(c) + "**"@;
        lemma_line_alike(p, s, r, l);
        lemma_blank_alike(p, markdown::line(p, s, l), markdown::line(markdown::loose(p), r, l));
    }
}

/// The rows of a table, in the page's style.
spec fn styled(p: Page, s: Sheet, t: TableV, rows: Seq<Seq<Seq<SpanV>>>) -> Sheet {
    match p.opts.tables {
        TableStyle::Gfm => markdown::gfm_table(p, s, t, rows),
        TableStyle::Html => markdown::html_table(p, s, t, rows),
        TableStyle::Csv => markdown::csv_table(p, s, t, rows),
    }
}

proof fn lemma_styled_alike(p: Page, s: Sheet, r: Sheet, t: TableV, rows: Seq<Seq<Seq<SpanV>>>)
    requires
        alike(s, r),
    ensures
        alike(styled(p, s, t, rows), styled(markdown::loose(p), r, t, rows)),
{
    match p.opts.tables {
        TableStyle::Gfm => lemma_gfm_alike(p, s, r, t, rows),
        TableStyle::Html => lemma_html_alike(p, s, r, t, rows),
        TableStyle::Csv => lemma_csv_alike(p, s, r, t, rows),
    }
}

proof fn lemma_table_alike(p: Page, s: Sheet, r: Sheet, t: TableV)
    requires
        alike(s, r),
    ensures
        alike(markdown::table(p, s, t), markdown::table(markdown::loose(p), r, t)),
{
    let q = markdown::loose(p);
    lemma_caption_alike(p, s, r, t);
    if t.width() > 0 {
        let a = markdown::table_caption(p, s, t);
        let b = markdown::table_caption(q, r, t);
        let cut = t.rows.len() > p.max_rows;
        let rows = if cut {
            t.rows.take(p.max_rows as int)
        } else {
            t.rows
        };
        lemma_styled_alike(p, a, b, t, rows);
        if cut {
            let w = markdown::rows_warning(p.max_rows, t.rows.len());
            let c = styled(p, a, t, rows);
            let d = styled(q, b, t, rows);
            let e = Sheet { warnings: c.warnings.push(w), ..c };
            let f = Sheet { warnings: d.warnings.push(w), ..d };
            lemma_blank_alike(p, e, f);
            lemma_line_alike(
                p,
                markdown::blank(p, e),
                markdown::blank(q, f),
                "_… "@ + chars::decimal((t.rows.len() - p.max_rows) as nat)
                    + " further rows omitted_"@,
            );
        }
    }
}

proof fn lemma_code_alike(
    p: Page,
    s: Sheet,
    r: Sheet,
    language: Option<Seq<char>>,
    text: Seq<char>,
)
    requires
        alike(s, r),
    ensures
        alike(
            markdown::code(p, s, language, text),
            markdown::code(markdown::loose(p), r, language, text),
        ),
{
    let q = markdown::loose(p);
    let fence = markdown::fence_for(text);
    let tag = match language {
        Some(l) => l,
        None => ""@,
    };
    let inner = chars::trim_end_char(text, '\n');
    lemma_line_alike(p, s, r, fence + tag);
    let a = markdown::line(p, s, fence + tag);
    let b = markdown::line(q, r, fence + tag);
    lemma_line_alike(p, a, b, inner);
    lemma_line_alike(p, markdown::line(p, a, inner), markdown::line(q, b, inner), fence);
}

proof fn lemma_block_alike(p: Page, s: Sheet, r: Sheet, b: BlockV, extra: u8)
    requires
        alike(s, r),
    ensures
        alike(markdown::block(p, s, b, extra), markdown::block(markdown::loose(p), r, b, extra)),
    decreases b, 0int,
{
    let q = markdown::loose(p);
    assert(markdown::loose(q) == q);
    let y = markdown::blank(p, s);
    let z = markdown::blank(q, r);
    lemma_blank_alike(p, s, r);
    match b {
        BlockV::Heading { level, text } => {
            lemma_spaced_line_alike(
                p,
                s,
                r,
                chars::repeat(
                    "#"@,
                    markdown::heading_level(level, p.opts.heading_offset, extra),
                ) + " "@ + markdown::inline(text),
            );
        },
        BlockV::Paragraph(text) => {
            if !chars::is_blank(ir::plain(text)) {
                lemma_spaced_line_alike(p, s, r, markdown::inline(text));
            }
        },
        BlockV::List { ordered, items } => {
            lemma_list_alike(p, y, z, ordered, items);
            lemma_close_alike(
                p,
                s,
                r,
                markdown::list(p, y, ordered, items),
                markdown::list(q, z, ordered, items),
            );
        },
        BlockV::Table(t) => {
            lemma_table_alike(p, y, z, t);
            lemma_close_alike(p, s, r, markdown::table(p, y, t), markdown::table(q, z, t));
        },
        BlockV::Code { language, text } => {
            lemma_code_alike(q, y, z, language, text);
            lemma_close_alike(
                p,
                s,
                r,
                markdown::code(q, y, language, text),
                markdown::code(q, z, language, text),
            );
        },
        BlockV::Quote(inner) => {
            let f = markdown::fragment(p, inner);
            assert(f == markdown::fragment(q, inner));
            let ls = chars::lines(f.out);
            let c = markdown::joined(y, f);
            let d = markdown::joined(z, f);
            lemma_quote_alike(p, c, d, ls);
            lemma_close_alike(
                p,
                s,
                r,
                markdown::quote_lines(p, c, ls),
                markdown::quote_lines(q, d, ls),
            );
        },
        BlockV::Image(img) => lemma_spaced_line_alike(p, s, r, markdown::image(img)),
        BlockV::Rule => lemma_spaced_line_alike(p, s, r, "---"@),
        BlockV::Raw { markdown: m } => lemma_verbatim_line_alike(p, s, r, chars::trim_end(m)),
        BlockV::RawHtml { html } => lemma_verbatim_line_alike(p, s, r, chars::trim_end(html)),
        BlockV::Embedded { name, doc } => {
            let head = markdown::member_heading(p, name);
            lemma_spaced_line_alike(p, s, r, head);
            let c = markdown::spaced_line(p, s, head);
            let d = markdown::spaced_line(q, r, head);
            lemma_blocks_alike(p, c, d, doc.blocks, markdown::sat2(extra));
            lemma_blank_alike(
                p,
                markdown::blocks(p, c, doc.blocks, markdown::sat2(extra)),
                markdown::blocks(q, d, doc.blocks, markdown::sat2(extra)),
            );
        },
    }
}

/// Blocks on a tight page differ from the same blocks on a loose one in runs of
/// line feeds at most.
proof fn lemma_blocks_alike(p: Page, s: Sheet, r: Sheet, bs: Seq<BlockV>, extra: u8)
    requires
        alike(s, r),
    ensures
        alike(
            markdown::blocks(p, s, bs, extra),
            markdown::blocks(markdown::loose(p), r, bs, extra),
        ),
    decreases bs, 0int,
{
    if bs.len() > 0 {
        lemma_blocks_alike(p, s, r, bs.drop_last(), extra);
        let t = markdown::blocks(p, s, bs.drop_last(), extra);
        let u = markdown::blocks(markdown::loose(p), r, bs.drop_last(), extra);
        lemma_block_alike(p, t, u, bs.last(), extra);
    }
}

proof fn lemma_collapsed_trim_end(s: Seq<char>)
    ensures
        collapsed(chars::trim_end(s)) == chars::trim_end(collapsed(s)),
    decreases s.len(),
{
    if s.len() > 0 {
        lemma_collapsed_trim_end(s.drop_last());
        let k = collapsed(s.drop_last());
        assert(k.push(s.last()).drop_last() =~= k);
    }
}

proof fn lemma_collapsed_trim_start(run: nat, s: Seq<char>)
    ensures
        collapsed(chars::trim_start(s)) == chars::trim_start(markdown::tightened(run, s)),
    decreases s.len(),
{
    if s.len() > 0 {
        let c = seq![s[0]];
        let t = s.skip(1);
        assert(s =~= c + t);
        lemma_concat(run, c, t);
        lemma_concat(0, c, t);
        assert(c.drop_last() =~= seq![]);
        assert(markdown::tightened(run, c.drop_last()) =~= seq![]);
        assert(markdown::tightened(0, c.drop_last()) =~= seq![]);
        let k = markdown::tightened(markdown::run_after(run, c), t);
        if chars::is_space(s[0]) {
            lemma_collapsed_trim_start(markdown::run_after(run, c), t);
            assert((c + k).skip(1) =~= k);
            assert(seq![] + k =~= k);
        } else {
            assert(markdown::tightened(run, c) =~= c);
            assert(markdown::tightened(0, c) =~= c);
            assert((c + k)[0] == s[0]);
        }
    }
}

/// A block on its own reads as it does in a document of nothing else, but for
/// white space at either end and for runs of line feeds: where it has no three
/// of them in a row, the two texts are the same.
pub proof fn a_block_reads_alike_on_its_own(p: Page, d: DocumentV)
    requires
        d.blocks.len() == 1,
        p.opts.front_matter == FrontMatter::Off,
    ensures
        collapsed(chars::trim(markdown::markdown(p, d))) == collapsed(
            markdown::fragment(p, d.blocks).out,
        ),
        guarantees::no_triple(
            markdown::blocks(markdown::loose(p), markdown::fresh(), d.blocks, 0).out,
        ) ==> chars::trim(markdown::markdown(p, d)) == markdown::fragment(p, d.blocks).out,
{
    lemma_blocks_alike(p, markdown::fresh(), markdown::fresh(), d.blocks, 0);
    let s = markdown::body(p, d).out;
    let r = markdown::blocks(markdown::loose(p), markdown::fresh(), d.blocks, 0).out;
    let e = chars::trim_end(s);
    reveal_strlit("\n");
    let m = markdown::markdown(p, d);
    assert(m =~= e.push('\n'));
    assert(m.drop_last() =~= e);
    guarantees::lemma_trim_start_trimmed(m);
    guarantees::lemma_trim_start_trimmed(s);
    guarantees::lemma_trim_end(s);
    assert(chars::trim_end(m) == chars::trim_end(e));
    assert(chars::trim_end(e) == e);
    assert(chars::trim(m) == chars::trim(s));
    lemma_collapsed_trim_start(0, s);
    lemma_collapsed_trim_start(0, r);
    lemma_collapsed_trim_end(chars::trim_start(s));
    lemma_collapsed_trim_end(chars::trim_start(r));
}

} // verus!

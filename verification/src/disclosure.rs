//! What is lost is reported: the renderer drops nothing without a warning.

use vstd::prelude::*;
use crate::chars;
use crate::error::WarningV;
use crate::ir::{BlockV, DocumentV, SpanV, TableV};
use crate::markdown;
use crate::markdown::{Page, Sheet};
use crate::render::{FrontMatter, TableStyle};

verus! {

/// The same page with a cap that is no smaller.
pub open spec fn roomier(p: Page, q: Page) -> bool {
    q.opts == p.opts && q.max_rows == p.max_rows && p.max <= q.max && q.tight == p.tight
}

proof fn lemma_push_whole(p: Page, q: Page, s: Sheet, t: Seq<char>)
    requires
        roomier(p, q),
        !markdown::push(p, s, t).truncated,
    ensures
        !s.truncated,
        markdown::push(q, s, t) == markdown::push(p, s, t),
{
}

pub(crate) proof fn lemma_line_whole(p: Page, q: Page, s: Sheet, t: Seq<char>)
    requires
        roomier(p, q),
        !markdown::line(p, s, t).truncated,
    ensures
        !s.truncated,
        markdown::line(q, s, t) == markdown::line(p, s, t),
{
    lemma_push_whole(p, q, markdown::push(p, s, t), "\n"@);
    lemma_push_whole(p, q, s, t);
}

pub(crate) proof fn lemma_blank_whole(p: Page, q: Page, s: Sheet)
    requires
        roomier(p, q),
        !markdown::blank(p, s).truncated,
    ensures
        !s.truncated,
        markdown::blank(q, s) == markdown::blank(p, s),
{
    if markdown::tail(s.out) < 2 && s.out.len() > 0 {
        lemma_push_whole(p, q, s, "\n"@);
    }
}

pub(crate) proof fn lemma_spaced_line_whole(p: Page, q: Page, s: Sheet, t: Seq<char>)
    requires
        roomier(p, q),
        !markdown::spaced_line(p, s, t).truncated,
    ensures
        !s.truncated,
        markdown::spaced_line(q, s, t) == markdown::spaced_line(p, s, t),
{
    let a = markdown::blank(p, s);
    let b = markdown::line(p, a, t);
    lemma_blank_whole(p, q, markdown::whole(s, b));
    lemma_line_whole(p, q, a, t);
    lemma_blank_whole(p, q, s);
}

proof fn lemma_verbatim_line_whole(p: Page, q: Page, s: Sheet, t: Seq<char>)
    requires
        roomier(p, q),
        !markdown::verbatim_line(p, s, t).truncated,
    ensures
        !s.truncated,
        markdown::verbatim_line(q, s, t) == markdown::verbatim_line(p, s, t),
{
    let a = markdown::blank(p, s);
    let b = markdown::line(markdown::loose(p), a, t);
    lemma_blank_whole(p, q, markdown::whole(s, b));
    lemma_line_whole(markdown::loose(p), markdown::loose(q), a, t);
    lemma_blank_whole(p, q, s);
}

pub(crate) proof fn lemma_pair_lines_whole(
    p: Page,
    q: Page,
    s: Sheet,
    pairs: Seq<(Seq<char>, Seq<char>)>,
    sep: Seq<char>,
)
    requires
        roomier(p, q),
        !markdown::pair_lines(p, s, pairs, sep).truncated,
    ensures
        !s.truncated,
        markdown::pair_lines(q, s, pairs, sep) == markdown::pair_lines(p, s, pairs, sep),
    decreases pairs.len(),
{
    if pairs.len() > 0 {
        lemma_line_whole(
            p,
            q,
            markdown::pair_lines(p, s, pairs.drop_last(), sep),
            markdown::yaml_key(pairs.last().0) + sep + markdown::scalar(pairs.last().1),
        );
        lemma_pair_lines_whole(p, q, s, pairs.drop_last(), sep);
    }
}

pub(crate) proof fn lemma_front_block_whole(
    p: Page,
    q: Page,
    s: Sheet,
    pairs: Seq<(Seq<char>, Seq<char>)>,
    fence: Seq<char>,
    sep: Seq<char>,
)
    requires
        roomier(p, q),
        !markdown::front_block(p, s, pairs, fence, sep).truncated,
    ensures
        !s.truncated,
        markdown::front_block(q, s, pairs, fence, sep) == markdown::front_block(
            p,
            s,
            pairs,
            fence,
            sep,
        ),
{
    if pairs.len() > 0 {
        let a = markdown::line(p, s, fence);
        let b = markdown::pair_lines(p, a, pairs, sep);
        let c = markdown::line(p, b, fence);
        lemma_blank_whole(p, q, markdown::whole(s, c));
        lemma_line_whole(p, q, b, fence);
        lemma_pair_lines_whole(p, q, a, pairs, sep);
        lemma_line_whole(p, q, s, fence);
    }
}

pub(crate) proof fn lemma_quote_whole(p: Page, q: Page, s: Sheet, ls: Seq<Seq<char>>)
    requires
        roomier(p, q),
        !markdown::quote_lines(p, s, ls).truncated,
    ensures
        !s.truncated,
        markdown::quote_lines(q, s, ls) == markdown::quote_lines(p, s, ls),
    decreases ls.len(),
{
    if ls.len() > 0 {
        lemma_line_whole(
            p,
            q,
            markdown::quote_lines(p, s, ls.drop_last()),
            if ls.last().len() == 0 {
                ">"@
            } else {
                "> "@ + ls.last()
            },
        );
        lemma_quote_whole(p, q, s, ls.drop_last());
    }
}

proof fn lemma_hanging_whole(p: Page, q: Page, s: Sheet, ls: Seq<Seq<char>>, pad: Seq<char>)
    requires
        roomier(p, q),
        !markdown::hanging_lines(p, s, ls, pad).truncated,
    ensures
        !s.truncated,
        markdown::hanging_lines(q, s, ls, pad) == markdown::hanging_lines(p, s, ls, pad),
    decreases ls.len(),
{
    if ls.len() > 0 {
        let t = markdown::hanging_lines(p, s, ls.drop_last(), pad);
        if ls.last().len() > 0 {
            lemma_line_whole(p, q, t, pad + ls.last());
        } else {
            lemma_push_whole(p, q, t, "\n"@);
        }
        lemma_hanging_whole(p, q, s, ls.drop_last(), pad);
    }
}

proof fn lemma_item_whole(p: Page, q: Page, s: Sheet, marker: Seq<char>, body: Seq<char>)
    requires
        roomier(p, q),
        !markdown::item(p, s, marker, body).truncated,
    ensures
        !s.truncated,
        markdown::item(q, s, marker, body) == markdown::item(p, s, marker, body),
{
    let ls = chars::lines(chars::trim_end(body));
    if ls.len() == 0 {
        lemma_line_whole(p, q, s, chars::trim_end(marker));
    } else {
        let first = marker + ls[0];
        let pad = chars::repeat(" "@, chars::byte_len(marker));
        lemma_hanging_whole(p, q, markdown::line(p, s, first), ls.skip(1), pad);
        lemma_line_whole(p, q, s, first);
    }
}

pub(crate) proof fn lemma_list_whole(p: Page, q: Page, s: Sheet, ordered: bool, items: Seq<Seq<BlockV>>)
    requires
        roomier(p, q),
        !markdown::list(p, s, ordered, items).truncated,
    ensures
        !s.truncated,
        markdown::list(q, s, ordered, items) == markdown::list(p, s, ordered, items),
    decreases items, 0int,
{
    if items.len() > 0 {
        let head = items.drop_last();
        let t = markdown::list(p, s, ordered, head);
        let m = markdown::list_marker(ordered, (items.len() - 1) as nat);
        let f = markdown::fragment(p, items.last());
        if markdown::any_verbatim(items.last()) {
            lemma_item_whole(
                markdown::loose(p),
                markdown::loose(q),
                markdown::joined(t, f),
                m,
                f.out,
            );
        } else {
            lemma_item_whole(p, q, markdown::joined(t, f), m, f.out);
        }
        lemma_fragment_whole(p, q, items.last());
        lemma_list_whole(p, q, s, ordered, head);
    }
}

pub(crate) proof fn lemma_fragment_whole(p: Page, q: Page, bs: Seq<BlockV>)
    requires
        roomier(p, q),
        !markdown::fragment(p, bs).truncated,
    ensures
        markdown::fragment(q, bs) == markdown::fragment(p, bs),
    decreases bs, 1int,
{
    lemma_blocks_whole(markdown::loose(p), markdown::loose(q), markdown::fresh(), bs, 0);
}

proof fn lemma_pipe_rows_whole(
    p: Page,
    q: Page,
    s: Sheet,
    rows: Seq<Seq<Seq<SpanV>>>,
    width: nat,
)
    requires
        roomier(p, q),
        !markdown::pipe_rows(p, s, rows, width).truncated,
    ensures
        !s.truncated,
        markdown::pipe_rows(q, s, rows, width) == markdown::pipe_rows(p, s, rows, width),
    decreases rows.len(),
{
    if rows.len() > 0 {
        let t = markdown::pipe_rows(p, s, rows.drop_last(), width);
        let cells = markdown::pad_cells(rows.last(), width);
        lemma_line_whole(p, q, t, markdown::pipe_row(cells));
        lemma_pipe_rows_whole(p, q, s, rows.drop_last(), width);
    }
}

proof fn lemma_html_cells_whole(
    p: Page,
    q: Page,
    s: Sheet,
    cells: Seq<Seq<char>>,
    open: Seq<char>,
    close: Seq<char>,
)
    requires
        roomier(p, q),
        !markdown::html_cells(p, s, cells, open, close).truncated,
    ensures
        !s.truncated,
        markdown::html_cells(q, s, cells, open, close) == markdown::html_cells(
            p,
            s,
            cells,
            open,
            close,
        ),
    decreases cells.len(),
{
    if cells.len() > 0 {
        lemma_line_whole(
            p,
            q,
            markdown::html_cells(p, s, cells.drop_last(), open, close),
            open + markdown::html_escape(cells.last()) + close,
        );
        lemma_html_cells_whole(p, q, s, cells.drop_last(), open, close);
    }
}

proof fn lemma_html_rows_whole(
    p: Page,
    q: Page,
    s: Sheet,
    rows: Seq<Seq<Seq<SpanV>>>,
    width: nat,
)
    requires
        roomier(p, q),
        !markdown::html_rows(p, s, rows, width).truncated,
    ensures
        !s.truncated,
        markdown::html_rows(q, s, rows, width) == markdown::html_rows(p, s, rows, width),
    decreases rows.len(),
{
    if rows.len() > 0 {
        let t = markdown::html_rows(p, s, rows.drop_last(), width);
        let a = markdown::line(p, t, "<tr>"@);
        let cells = markdown::pad_cells_raw(rows.last(), width);
        let b = markdown::html_cells(p, a, cells, "<td>"@, "</td>"@);
        lemma_line_whole(p, q, b, "</tr>"@);
        lemma_html_cells_whole(p, q, a, cells, "<td>"@, "</td>"@);
        lemma_line_whole(p, q, t, "<tr>"@);
        lemma_html_rows_whole(p, q, s, rows.drop_last(), width);
    }
}

proof fn lemma_csv_rows_whole(
    p: Page,
    q: Page,
    s: Sheet,
    rows: Seq<Seq<Seq<SpanV>>>,
    width: nat,
)
    requires
        roomier(p, q),
        !markdown::csv_rows(p, s, rows, width).truncated,
    ensures
        !s.truncated,
        markdown::csv_rows(q, s, rows, width) == markdown::csv_rows(p, s, rows, width),
    decreases rows.len(),
{
    if rows.len() > 0 {
        let t = markdown::csv_rows(p, s, rows.drop_last(), width);
        lemma_line_whole(p, q, t, markdown::csv_row(markdown::pad_cells_raw(rows.last(), width)));
        lemma_csv_rows_whole(p, q, s, rows.drop_last(), width);
    }
}

proof fn lemma_gfm_whole(
    p: Page,
    q: Page,
    s: Sheet,
    t: TableV,
    rows: Seq<Seq<Seq<SpanV>>>,
)
    requires
        roomier(p, q),
        !markdown::gfm_table(p, s, t, rows).truncated,
    ensures
        !s.truncated,
        markdown::gfm_table(q, s, t, rows) == markdown::gfm_table(p, s, t, rows),
{
    let w = t.width();
    let header = match t.header {
        Some(h) => markdown::pad_cells(h, w),
        None => Seq::new(w, |i: int| Seq::<char>::empty()),
    };
    let a = markdown::line(p, s, markdown::pipe_row(header));
    let b = markdown::line(p, a, markdown::pipe_row(markdown::dashes(w)));
    lemma_pipe_rows_whole(p, q, b, rows, w);
    lemma_line_whole(p, q, a, markdown::pipe_row(markdown::dashes(w)));
    lemma_line_whole(p, q, s, markdown::pipe_row(header));
}

proof fn lemma_html_whole(
    p: Page,
    q: Page,
    s: Sheet,
    t: TableV,
    rows: Seq<Seq<Seq<SpanV>>>,
)
    requires
        roomier(p, q),
        !markdown::html_table(p, s, t, rows).truncated,
    ensures
        !s.truncated,
        markdown::html_table(q, s, t, rows) == markdown::html_table(p, s, t, rows),
{
    let w = t.width();
    let a = markdown::line(p, s, "<table>"@);
    let b = match t.header {
        Some(h) => markdown::line(
            p,
            markdown::html_cells(
                p,
                markdown::line(p, a, "<thead><tr>"@),
                markdown::pad_cells_raw(h, w),
                "<th>"@,
                "</th>"@,
            ),
            "</tr></thead>"@,
        ),
        None => a,
    };
    let c = markdown::line(p, b, "<tbody>"@);
    let d = markdown::html_rows(p, c, rows, w);
    let e = markdown::line(p, d, "</tbody>"@);
    lemma_line_whole(p, q, e, "</table>"@);
    lemma_line_whole(p, q, d, "</tbody>"@);
    lemma_html_rows_whole(p, q, c, rows, w);
    lemma_line_whole(p, q, b, "<tbody>"@);
    if let Some(h) = t.header {
        let x = markdown::line(p, a, "<thead><tr>"@);
        let cells = markdown::pad_cells_raw(h, w);
        lemma_line_whole(
            p,
            q,
            markdown::html_cells(p, x, cells, "<th>"@, "</th>"@),
            "</tr></thead>"@,
        );
        lemma_html_cells_whole(p, q, x, cells, "<th>"@, "</th>"@);
        lemma_line_whole(p, q, a, "<thead><tr>"@);
    }
    lemma_line_whole(p, q, s, "<table>"@);
}

proof fn lemma_csv_whole(
    p: Page,
    q: Page,
    s: Sheet,
    t: TableV,
    rows: Seq<Seq<Seq<SpanV>>>,
)
    requires
        roomier(p, q),
        !markdown::csv_table(p, s, t, rows).truncated,
    ensures
        !s.truncated,
        markdown::csv_table(q, s, t, rows) == markdown::csv_table(p, s, t, rows),
{
    let w = t.width();
    let a = markdown::line(p, s, "```csv"@);
    let b = match t.header {
        Some(h) => markdown::line(p, a, markdown::csv_row(markdown::pad_cells_raw(h, w))),
        None => a,
    };
    let c = markdown::csv_rows(p, b, rows, w);
    lemma_line_whole(p, q, c, "```"@);
    lemma_csv_rows_whole(p, q, b, rows, w);
    if let Some(h) = t.header {
        lemma_line_whole(p, q, a, markdown::csv_row(markdown::pad_cells_raw(h, w)));
    }
    lemma_line_whole(p, q, s, "```csv"@);
}

pub(crate) proof fn lemma_table_whole(p: Page, q: Page, s: Sheet, t: TableV)
    requires
        roomier(p, q),
        !markdown::table(p, s, t).truncated,
    ensures
        !s.truncated,
        markdown::table(q, s, t) == markdown::table(p, s, t),
{
    let a = markdown::table_caption(p, s, t);
    if t.width() > 0 {
        let cut = t.rows.len() > p.max_rows;
        let rows = if cut {
            t.rows.take(p.max_rows as int)
        } else {
            t.rows
        };
        let b = match p.opts.tables {
            TableStyle::Gfm => markdown::gfm_table(p, a, t, rows),
            TableStyle::Html => markdown::html_table(p, a, t, rows),
            TableStyle::Csv => markdown::csv_table(p, a, t, rows),
        };
        if cut {
            let c = Sheet {
                warnings: b.warnings.push(markdown::rows_warning(p.max_rows, t.rows.len())),
                ..b
            };
            let note = "_… "@ + chars::decimal((t.rows.len() - p.max_rows) as nat)
                + " further rows omitted_"@;
            lemma_line_whole(p, q, markdown::blank(p, c), note);
            lemma_blank_whole(p, q, c);
        }
        match p.opts.tables {
            TableStyle::Gfm => lemma_gfm_whole(p, q, a, t, rows),
            TableStyle::Html => lemma_html_whole(p, q, a, t, rows),
            TableStyle::Csv => lemma_csv_whole(p, q, a, t, rows),
        }
    }
    if let Some(c) = t.caption {
        if !chars::is_blank(c) {
            let l = "**"@ + markdown::escape_text(c) + "**"@;
            lemma_blank_whole(p, q, markdown::line(p, s, l));
            lemma_line_whole(p, q, s, l);
        }
    }
}

pub(crate) proof fn lemma_block_whole(p: Page, q: Page, s: Sheet, b: BlockV, extra: u8)
    requires
        roomier(p, q),
        !s.truncated,
        !markdown::block(p, s, b, extra).truncated,
    ensures
        markdown::block(q, s, b, extra) == markdown::block(p, s, b, extra),
    decreases b, 0int,
{
    let z = markdown::blank(p, s);
    match b {
        BlockV::Heading { level, text } => {
            lemma_spaced_line_whole(
                p,
                q,
                s,
                chars::repeat(
                    "#"@,
                    markdown::heading_level(level, p.opts.heading_offset, extra),
                ) + " "@ + markdown::inline(text),
            );
        },
        BlockV::Paragraph(text) => {
            if !chars::is_blank(crate::ir::plain(text)) {
                lemma_spaced_line_whole(p, q, s, markdown::inline(text));
            }
        },
        BlockV::List { ordered, items } => {
            let l = markdown::list(p, z, ordered, items);
            lemma_blank_whole(p, q, markdown::whole(s, l));
            lemma_list_whole(p, q, z, ordered, items);
            lemma_blank_whole(p, q, s);
        },
        BlockV::Table(t) => {
            lemma_blank_whole(p, q, markdown::whole(s, markdown::table(p, z, t)));
            lemma_table_whole(p, q, z, t);
            lemma_blank_whole(p, q, s);
        },
        BlockV::Code { language, text } => {
            let fence = markdown::fence_for(text);
            let tag = match language {
                Some(l) => l,
                None => ""@,
            };
            let inner = chars::trim_end_char(text, '\n');
            let x = markdown::loose(p);
            let y = markdown::loose(q);
            let a = markdown::line(x, z, fence + tag);
            let c = markdown::line(x, a, inner);
            lemma_blank_whole(p, q, markdown::whole(s, markdown::line(x, c, fence)));
            lemma_line_whole(x, y, c, fence);
            lemma_line_whole(x, y, a, inner);
            lemma_line_whole(x, y, z, fence + tag);
            lemma_blank_whole(p, q, s);
        },
        BlockV::Quote(inner) => {
            let f = markdown::fragment(p, inner);
            let a = markdown::joined(z, f);
            let ls = chars::lines(f.out);
            lemma_blank_whole(p, q, markdown::whole(s, markdown::quote_lines(p, a, ls)));
            lemma_quote_whole(p, q, a, ls);
            lemma_fragment_whole(p, q, inner);
            lemma_blank_whole(p, q, s);
        },
        BlockV::Image(img) => {
            lemma_spaced_line_whole(p, q, s, markdown::image(img));
        },
        BlockV::Rule => {
            lemma_spaced_line_whole(p, q, s, "---"@);
        },
        BlockV::Raw { markdown: m } => {
            lemma_verbatim_line_whole(p, q, s, chars::trim_end(m));
        },
        BlockV::RawHtml { html } => {
            if p.opts.preserve_unsupported_html {
                lemma_verbatim_line_whole(p, q, s, chars::trim_end(html));
            }
        },
        BlockV::Embedded { name, doc } => {
            let head = markdown::member_heading(p, name);
            let a = markdown::spaced_line(p, s, head);
            let c = markdown::blocks(p, a, doc.blocks, markdown::sat2(extra));
            lemma_blank_whole(p, q, c);
            lemma_blocks_keep_truncation(p, a, doc.blocks, markdown::sat2(extra));
            lemma_blocks_whole(p, q, a, doc.blocks, markdown::sat2(extra));
            lemma_spaced_line_whole(p, q, s, head);
        },
    }
}

/// Blocks that are not cut short come out the same on a roomier page.
pub(crate) proof fn lemma_blocks_whole(p: Page, q: Page, s: Sheet, bs: Seq<BlockV>, extra: u8)
    requires
        roomier(p, q),
        !markdown::blocks(p, s, bs, extra).truncated,
    ensures
        markdown::blocks(q, s, bs, extra) == markdown::blocks(p, s, bs, extra),
    decreases bs, 0int,
{
    if bs.len() > 0 {
        let t = markdown::blocks(p, s, bs.drop_last(), extra);
        lemma_block_whole(p, q, t, bs.last(), extra);
        lemma_blocks_whole(p, q, s, bs.drop_last(), extra);
    }
}

pub(crate) proof fn lemma_blocks_keep_truncation(p: Page, s: Sheet, bs: Seq<BlockV>, extra: u8)
    ensures
        s.truncated ==> markdown::blocks(p, s, bs, extra).truncated,
    decreases bs.len(),
{
    if bs.len() > 0 {
        lemma_blocks_keep_truncation(p, s, bs.drop_last(), extra);
    }
}

/// Truncation is never silent: a document that is cut carries the warning that
/// says so, and one that carries none reads the same however much room there
/// is.
pub proof fn truncation_is_reported(p: Page, q: Page, d: DocumentV)
    requires
        roomier(p, q),
    ensures
        markdown::body(p, d).truncated ==> markdown::warnings(p, d).len() > 0 && markdown::warnings(
            p,
            d,
        ).last() == markdown::output_warning(p.max),
        !markdown::body(p, d).truncated ==> markdown::markdown(q, d) == markdown::markdown(p, d)
            && markdown::warnings(q, d) == markdown::warnings(p, d),
{
    if !markdown::body(p, d).truncated {
        let f = markdown::front_matter(p, markdown::fresh(), d);
        let pairs = markdown::front_pairs(d.title, d.metadata);
        lemma_blocks_keep_truncation(p, f, d.blocks, 0);
        match p.opts.front_matter {
            FrontMatter::Off => {},
            FrontMatter::Yaml => {
                lemma_front_block_whole(p, q, markdown::fresh(), pairs, "---"@, ": "@);
            },
            FrontMatter::Toml => {
                lemma_front_block_whole(p, q, markdown::fresh(), pairs, "+++"@, " = "@);
            },
        }
        lemma_blocks_whole(p, q, f, d.blocks, 0);
    }
}

/// Rendering the block leaves something out, and `w` is the warning for it:
/// rows over the table's cap, or HTML that Markdown cannot express.
pub open spec fn leaves_out(p: Page, b: BlockV, w: WarningV) -> bool
    decreases b,
{
    match b {
        BlockV::Table(t) => t.width() > 0 && t.rows.len() > p.max_rows && w
            == markdown::rows_warning(p.max_rows, t.rows.len()),
        BlockV::RawHtml { .. } => !p.opts.preserve_unsupported_html && w
            == markdown::dropped_html(),
        BlockV::List { items, .. } => leaves_out_of_items(p, items, w),
        BlockV::Quote(inner) => leaves_out_of(p, inner, w),
        BlockV::Embedded { doc, .. } => leaves_out_of(p, doc.blocks, w),
        _ => false,
    }
}

pub open spec fn leaves_out_of_items(p: Page, items: Seq<Seq<BlockV>>, w: WarningV) -> bool
    decreases items,
{
    items.len() > 0 && (leaves_out_of_items(p, items.drop_last(), w) || leaves_out_of(
        p,
        items.last(),
        w,
    ))
}

pub open spec fn leaves_out_of(p: Page, bs: Seq<BlockV>, w: WarningV) -> bool
    decreases bs,
{
    bs.len() > 0 && (leaves_out_of(p, bs.drop_last(), w) || leaves_out(p, bs.last(), w))
}

proof fn lemma_leaves_out_loose(p: Page, b: BlockV, w: WarningV)
    ensures
        leaves_out(markdown::loose(p), b, w) == leaves_out(p, b, w),
    decreases b, 0int,
{
    match b {
        BlockV::List { items, .. } => lemma_leaves_out_of_items_loose(p, items, w),
        BlockV::Quote(inner) => lemma_leaves_out_of_loose(p, inner, w),
        BlockV::Embedded { doc, .. } => lemma_leaves_out_of_loose(p, doc.blocks, w),
        _ => {},
    }
}

proof fn lemma_leaves_out_of_items_loose(p: Page, items: Seq<Seq<BlockV>>, w: WarningV)
    ensures
        leaves_out_of_items(markdown::loose(p), items, w) == leaves_out_of_items(p, items, w),
    decreases items, 0int,
{
    if items.len() > 0 {
        lemma_leaves_out_of_items_loose(p, items.drop_last(), w);
        lemma_leaves_out_of_loose(p, items.last(), w);
    }
}

proof fn lemma_leaves_out_of_loose(p: Page, bs: Seq<BlockV>, w: WarningV)
    ensures
        leaves_out_of(markdown::loose(p), bs, w) == leaves_out_of(p, bs, w),
    decreases bs, 0int,
{
    if bs.len() > 0 {
        lemma_leaves_out_of_loose(p, bs.drop_last(), w);
        lemma_leaves_out_loose(p, bs.last(), w);
    }
}

/// What a step keeps: the warnings, and that the sheet was cut.
pub open spec fn keeps(s: Sheet, r: Sheet) -> bool {
    r.warnings == s.warnings && (s.truncated ==> r.truncated)
}

proof fn lemma_quote_keeps(p: Page, s: Sheet, ls: Seq<Seq<char>>)
    ensures
        keeps(s, markdown::quote_lines(p, s, ls)),
    decreases ls.len(),
{
    if ls.len() > 0 {
        lemma_quote_keeps(p, s, ls.drop_last());
    }
}

proof fn lemma_hanging_keeps(p: Page, s: Sheet, ls: Seq<Seq<char>>, pad: Seq<char>)
    ensures
        keeps(s, markdown::hanging_lines(p, s, ls, pad)),
    decreases ls.len(),
{
    if ls.len() > 0 {
        lemma_hanging_keeps(p, s, ls.drop_last(), pad);
    }
}

proof fn lemma_list_reports(
    p: Page,
    s: Sheet,
    ordered: bool,
    items: Seq<Seq<BlockV>>,
    w: WarningV,
)
    ensures
        s.truncated ==> markdown::list(p, s, ordered, items).truncated,
        s.warnings.contains(w) ==> markdown::list(p, s, ordered, items).warnings.contains(w),
        leaves_out_of_items(p, items, w) ==> markdown::list(p, s, ordered, items).truncated
            || markdown::list(p, s, ordered, items).warnings.contains(w),
    decreases items, 0int,
{
    if items.len() > 0 {
        lemma_list_reports(p, s, ordered, items.drop_last(), w);
        let t = markdown::list(p, s, ordered, items.drop_last());
        let f = markdown::fragment(p, items.last());
        let a = markdown::joined(t, f);
        let m = markdown::list_marker(ordered, (items.len() - 1) as nat);
        let ls = chars::lines(chars::trim_end(f.out));
        lemma_joined_keeps(t, f, w);
        lemma_leaves_out_of_loose(p, items.last(), w);
        lemma_blocks_report(markdown::loose(p), markdown::fresh(), items.last(), 0, w);
        let q = if markdown::any_verbatim(items.last()) {
            markdown::loose(p)
        } else {
            p
        };
        if ls.len() > 0 {
            lemma_hanging_keeps(
                q,
                markdown::line(q, a, m + ls[0]),
                ls.skip(1),
                chars::repeat(" "@, chars::byte_len(m)),
            );
        }
    }
}

proof fn lemma_joined_keeps(s: Sheet, f: Sheet, w: WarningV)
    ensures
        s.warnings.contains(w) || f.warnings.contains(w) ==> markdown::joined(
            s,
            f,
        ).warnings.contains(w),
{
    let ws = markdown::joined(s, f).warnings;
    if s.warnings.contains(w) {
        let i = s.warnings.index_of(w);
        assert(ws[i] == w);
    } else if f.warnings.contains(w) {
        let i = f.warnings.index_of(w);
        assert(ws[s.warnings.len() + i] == w);
    }
}

proof fn lemma_pipe_rows_keep(p: Page, s: Sheet, rows: Seq<Seq<Seq<SpanV>>>, width: nat)
    ensures
        keeps(s, markdown::pipe_rows(p, s, rows, width)),
    decreases rows.len(),
{
    if rows.len() > 0 {
        lemma_pipe_rows_keep(p, s, rows.drop_last(), width);
    }
}

proof fn lemma_html_cells_keep(
    p: Page,
    s: Sheet,
    cells: Seq<Seq<char>>,
    open: Seq<char>,
    close: Seq<char>,
)
    ensures
        keeps(s, markdown::html_cells(p, s, cells, open, close)),
    decreases cells.len(),
{
    if cells.len() > 0 {
        lemma_html_cells_keep(p, s, cells.drop_last(), open, close);
    }
}

proof fn lemma_html_rows_keep(p: Page, s: Sheet, rows: Seq<Seq<Seq<SpanV>>>, width: nat)
    ensures
        keeps(s, markdown::html_rows(p, s, rows, width)),
    decreases rows.len(),
{
    if rows.len() > 0 {
        lemma_html_rows_keep(p, s, rows.drop_last(), width);
        let t = markdown::html_rows(p, s, rows.drop_last(), width);
        lemma_html_cells_keep(
            p,
            markdown::line(p, t, "<tr>"@),
            markdown::pad_cells_raw(rows.last(), width),
            "<td>"@,
            "</td>"@,
        );
    }
}

proof fn lemma_csv_rows_keep(p: Page, s: Sheet, rows: Seq<Seq<Seq<SpanV>>>, width: nat)
    ensures
        keeps(s, markdown::csv_rows(p, s, rows, width)),
    decreases rows.len(),
{
    if rows.len() > 0 {
        lemma_csv_rows_keep(p, s, rows.drop_last(), width);
    }
}

proof fn lemma_gfm_keeps(p: Page, s: Sheet, t: TableV, rows: Seq<Seq<Seq<SpanV>>>)
    ensures
        keeps(s, markdown::gfm_table(p, s, t, rows)),
{
    let w = t.width();
    let header = match t.header {
        Some(h) => markdown::pad_cells(h, w),
        None => Seq::new(w, |i: int| Seq::<char>::empty()),
    };
    let x = markdown::line(p, s, markdown::pipe_row(header));
    let y = markdown::line(p, x, markdown::pipe_row(markdown::dashes(w)));
    lemma_pipe_rows_keep(p, y, rows, w);
}

proof fn lemma_html_keeps(p: Page, s: Sheet, t: TableV, rows: Seq<Seq<Seq<SpanV>>>)
    ensures
        keeps(s, markdown::html_table(p, s, t, rows)),
{
    let w = t.width();
    let x = markdown::line(p, s, "<table>"@);
    let y = match t.header {
        Some(h) => markdown::line(
            p,
            markdown::html_cells(
                p,
                markdown::line(p, x, "<thead><tr>"@),
                markdown::pad_cells_raw(h, w),
                "<th>"@,
                "</th>"@,
            ),
            "</tr></thead>"@,
        ),
        None => x,
    };
    if let Some(h) = t.header {
        lemma_html_cells_keep(
            p,
            markdown::line(p, x, "<thead><tr>"@),
            markdown::pad_cells_raw(h, w),
            "<th>"@,
            "</th>"@,
        );
    }
    lemma_html_rows_keep(p, markdown::line(p, y, "<tbody>"@), rows, w);
}

proof fn lemma_csv_keeps(p: Page, s: Sheet, t: TableV, rows: Seq<Seq<Seq<SpanV>>>)
    ensures
        keeps(s, markdown::csv_table(p, s, t, rows)),
{
    let w = t.width();
    let x = markdown::line(p, s, "```csv"@);
    let y = match t.header {
        Some(h) => markdown::line(p, x, markdown::csv_row(markdown::pad_cells_raw(h, w))),
        None => x,
    };
    lemma_csv_rows_keep(p, y, rows, w);
}

proof fn lemma_table_keeps(p: Page, s: Sheet, t: TableV)
    ensures
        s.truncated ==> markdown::table(p, s, t).truncated,
        forall|w: WarningV|
            s.warnings.contains(w) ==> #[trigger] markdown::table(p, s, t).warnings.contains(w),
        t.width() > 0 && t.rows.len() > p.max_rows ==> markdown::table(p, s, t).warnings.contains(
            markdown::rows_warning(p.max_rows, t.rows.len()),
        ),
{
    let a = markdown::table_caption(p, s, t);
    assert(keeps(s, a));
    if t.width() > 0 {
        let cut = t.rows.len() > p.max_rows;
        let rows = if cut {
            t.rows.take(p.max_rows as int)
        } else {
            t.rows
        };
        let b = match p.opts.tables {
            TableStyle::Gfm => markdown::gfm_table(p, a, t, rows),
            TableStyle::Html => markdown::html_table(p, a, t, rows),
            TableStyle::Csv => markdown::csv_table(p, a, t, rows),
        };
        match p.opts.tables {
            TableStyle::Gfm => lemma_gfm_keeps(p, a, t, rows),
            TableStyle::Html => lemma_html_keeps(p, a, t, rows),
            TableStyle::Csv => lemma_csv_keeps(p, a, t, rows),
        }
        assert(keeps(s, b));
        if cut {
            let mark = markdown::rows_warning(p.max_rows, t.rows.len());
            let ws = b.warnings.push(mark);
            assert(markdown::table(p, s, t).warnings == ws);
            assert(ws[b.warnings.len() as int] == mark);
            assert forall|v: WarningV| s.warnings.contains(v) implies ws.contains(v) by {
                let i = s.warnings.index_of(v);
                assert(ws[i] == v);
            }
        }
    }
}

/// Ending a block keeps its warnings, and that it was cut.
proof fn lemma_close_keeps(p: Page, s: Sheet, u: Sheet)
    ensures
        keeps(u, markdown::blank(p, markdown::whole(s, u))),
{
}

proof fn lemma_spaced_line_keeps(p: Page, s: Sheet, t: Seq<char>)
    ensures
        keeps(s, markdown::spaced_line(p, s, t)),
{
}

proof fn lemma_verbatim_line_keeps(p: Page, s: Sheet, t: Seq<char>)
    ensures
        keeps(s, markdown::verbatim_line(p, s, t)),
{
}

#[verifier::rlimit(60)]
#[verifier::spinoff_prover]
proof fn lemma_block_reports(p: Page, s: Sheet, b: BlockV, extra: u8, w: WarningV)
    ensures
        s.truncated ==> markdown::block(p, s, b, extra).truncated,
        s.warnings.contains(w) ==> markdown::block(p, s, b, extra).warnings.contains(w),
        leaves_out(p, b, w) ==> markdown::block(p, s, b, extra).truncated || markdown::block(
            p,
            s,
            b,
            extra,
        ).warnings.contains(w),
    decreases b, 0int,
{
    let z = markdown::blank(p, s);
    match b {
        BlockV::Heading { level, text } => {
            lemma_spaced_line_keeps(
                p,
                s,
                chars::repeat(
                    "#"@,
                    markdown::heading_level(level, p.opts.heading_offset, extra),
                ) + " "@ + markdown::inline(text),
            );
        },
        BlockV::Paragraph(text) => {
            lemma_spaced_line_keeps(p, s, markdown::inline(text));
        },
        BlockV::Image(img) => {
            lemma_spaced_line_keeps(p, s, markdown::image(img));
        },
        BlockV::Rule => {
            lemma_spaced_line_keeps(p, s, "---"@);
        },
        BlockV::Raw { markdown: m } => {
            lemma_verbatim_line_keeps(p, s, chars::trim_end(m));
        },
        BlockV::Code { language, text } => {
            lemma_close_keeps(p, s, markdown::code(p, z, language, text));
        },
        BlockV::List { ordered, items } => {
            lemma_list_reports(p, z, ordered, items, w);
            lemma_close_keeps(p, s, markdown::list(p, z, ordered, items));
        },
        BlockV::Table(t) => {
            lemma_table_keeps(p, z, t);
            lemma_close_keeps(p, s, markdown::table(p, z, t));
        },
        BlockV::Quote(inner) => {
            let f = markdown::fragment(p, inner);
            lemma_joined_keeps(z, f, w);
            lemma_leaves_out_of_loose(p, inner, w);
            lemma_blocks_report(markdown::loose(p), markdown::fresh(), inner, 0, w);
            let ls = chars::lines(f.out);
            lemma_quote_keeps(p, markdown::joined(z, f), ls);
            lemma_close_keeps(p, s, markdown::quote_lines(p, markdown::joined(z, f), ls));
        },
        BlockV::RawHtml { html } => {
            lemma_verbatim_line_keeps(p, s, chars::trim_end(html));
            if !p.opts.preserve_unsupported_html {
                let ws = s.warnings.push(markdown::dropped_html());
                assert(ws[s.warnings.len() as int] == markdown::dropped_html());
                if s.warnings.contains(w) {
                    let i = s.warnings.index_of(w);
                    assert(ws[i] == w);
                }
            }
        },
        BlockV::Embedded { name, doc } => {
            let a = markdown::spaced_line(p, s, markdown::member_heading(p, name));
            lemma_spaced_line_keeps(p, s, markdown::member_heading(p, name));
            lemma_blocks_report(p, a, doc.blocks, markdown::sat2(extra), w);
        },
    }
}

proof fn lemma_blocks_report(p: Page, s: Sheet, bs: Seq<BlockV>, extra: u8, w: WarningV)
    ensures
        s.truncated ==> markdown::blocks(p, s, bs, extra).truncated,
        s.warnings.contains(w) ==> markdown::blocks(p, s, bs, extra).warnings.contains(w),
        leaves_out_of(p, bs, w) ==> markdown::blocks(p, s, bs, extra).truncated
            || markdown::blocks(p, s, bs, extra).warnings.contains(w),
    decreases bs, 0int,
{
    if bs.len() > 0 {
        let t = markdown::blocks(p, s, bs.drop_last(), extra);
        lemma_blocks_report(p, s, bs.drop_last(), extra, w);
        lemma_block_reports(p, t, bs.last(), extra, w);
    }
}

/// Rows over a table's cap and HTML that Markdown cannot express are left out
/// with a warning, in the document, in its list items and quotes and in what is
/// embedded in it; where the output ended before the block, with the warning
/// that it was cut.
pub proof fn omissions_are_reported(p: Page, d: DocumentV, w: WarningV)
    requires
        leaves_out_of(p, d.blocks, w),
    ensures
        markdown::warnings(p, d).contains(w) || markdown::warnings(p, d).contains(
            markdown::output_warning(p.max),
        ),
{
    let f = markdown::front_matter(p, markdown::fresh(), d);
    lemma_blocks_report(p, f, d.blocks, 0, w);
    let s = markdown::body(p, d);
    if s.truncated {
        let ws = markdown::warnings(p, d);
        assert(ws[s.warnings.len() as int] == markdown::output_warning(p.max));
    }
}

} // verus!

//! What rendered blocks keep.

use vstd::prelude::*;
use crate::chars;
use crate::guarantees;
use crate::ir;
use crate::ir::{BlockV, DocumentV, SpanV, TableV};
use crate::markdown;
use crate::markdown::{Page, Sheet};
use crate::render::{FrontMatter, TableStyle};

verus! {

/// Where nothing is cut, `r` is `s` with these letters behind it.
pub open spec fn adds(s: Sheet, r: Sheet, l: Seq<char>) -> bool {
    !r.truncated ==> !s.truncated && crate::fidelity::inline::letters(r.out) == crate::fidelity::inline::letters(s.out) + l
}

proof fn lemma_adds(a: Sheet, b: Sheet, c: Sheet, x: Seq<char>, y: Seq<char>)
    requires
        adds(a, b, x),
        adds(b, c, y),
    ensures
        adds(a, c, x + y),
{
    if !c.truncated {
        assert(crate::fidelity::inline::letters(a.out) + x + y =~= crate::fidelity::inline::letters(a.out) + (x + y));
    }
}

proof fn lemma_adds_nothing(a: Sheet, b: Sheet, c: Sheet, x: Seq<char>)
    requires
        adds(a, b, x),
        adds(b, c, seq![]),
    ensures
        adds(a, c, x),
{
    lemma_adds(a, b, c, x, seq![]);
    assert(x + Seq::<char>::empty() =~= x);
}

proof fn lemma_tightened(run: nat, t: Seq<char>)
    ensures
        crate::fidelity::inline::letters(markdown::tightened(run, t)) == crate::fidelity::inline::letters(t),
    decreases t.len(),
{
    if t.len() > 0 {
        lemma_tightened(run, t.drop_last());
        let k = markdown::tightened(run, t.drop_last());
        assert(k.push(t.last()).drop_last() =~= k);
    }
}

proof fn lemma_push(p: Page, s: Sheet, t: Seq<char>)
    ensures
        adds(s, markdown::push(p, s, t), crate::fidelity::inline::letters(t)),
{
    lemma_tightened(markdown::tail(s.out), t);
    crate::fidelity::inline::lemma_letters_concat(s.out, markdown::taken(p, s.out, t));
}

proof fn lemma_line(p: Page, s: Sheet, t: Seq<char>)
    ensures
        adds(s, markdown::line(p, s, t), crate::fidelity::inline::letters(t)),
{
    reveal_strlit("\n");
    lemma_push(p, s, t);
    let a = markdown::push(p, s, t);
    lemma_push(p, a, "\n"@);
    crate::fidelity::inline::lemma_letters_marks("\n"@);
    lemma_adds_nothing(s, a, markdown::line(p, s, t), crate::fidelity::inline::letters(t));
}

proof fn lemma_blank(p: Page, s: Sheet)
    ensures
        adds(s, markdown::blank(p, s), seq![]),
{
    reveal_strlit("\n");
    lemma_push(p, s, "\n"@);
    crate::fidelity::inline::lemma_letters_marks("\n"@);
    assert(crate::fidelity::inline::letters(s.out) + seq![] =~= crate::fidelity::inline::letters(s.out));
}

/// A block between blank lines.
proof fn lemma_spaced(p: Page, s: Sheet, u: Sheet, l: Seq<char>)
    requires
        adds(markdown::blank(p, s), u, l),
    ensures
        adds(s, markdown::blank(p, markdown::whole(s, u)), l),
{
    lemma_blank(p, s);
    lemma_adds(s, markdown::blank(p, s), u, seq![], l);
    assert(Seq::<char>::empty() + l =~= l);
    let w = markdown::whole(s, u);
    lemma_blank(p, w);
    lemma_adds_nothing(s, w, markdown::blank(p, w), l);
}

proof fn lemma_spaced_line(p: Page, s: Sheet, t: Seq<char>)
    ensures
        adds(s, markdown::spaced_line(p, s, t), crate::fidelity::inline::letters(t)),
{
    lemma_line(p, markdown::blank(p, s), t);
    lemma_spaced(p, s, markdown::line(p, markdown::blank(p, s), t), crate::fidelity::inline::letters(t));
}

proof fn lemma_verbatim_line(p: Page, s: Sheet, t: Seq<char>)
    ensures
        adds(s, markdown::verbatim_line(p, s, t), crate::fidelity::inline::letters(t)),
{
    let q = markdown::loose(p);
    lemma_line(q, markdown::blank(p, s), t);
    lemma_spaced(p, s, markdown::line(q, markdown::blank(p, s), t), crate::fidelity::inline::letters(t));
}

/// The letters of the texts, one after the other.
pub open spec fn all_letters(texts: Seq<Seq<char>>) -> Seq<char>
    decreases texts.len(),
{
    if texts.len() == 0 {
        seq![]
    } else {
        all_letters(texts.drop_last()) + crate::fidelity::inline::letters(texts.last())
    }
}

proof fn lemma_all_letters_concat(a: Seq<Seq<char>>, b: Seq<Seq<char>>)
    ensures
        all_letters(a + b) == all_letters(a) + all_letters(b),
    decreases b.len(),
{
    if b.len() == 0 {
        assert(a + b =~= a);
    } else {
        assert((a + b).drop_last() =~= a + b.drop_last());
        lemma_all_letters_concat(a, b.drop_last());
    }
}

proof fn lemma_all_letters_one(s: Seq<char>)
    ensures
        all_letters(seq![s]) == crate::fidelity::inline::letters(s),
{
    assert(seq![s].drop_last() =~= seq![]);
    assert(all_letters(seq![s].drop_last()) =~= seq![]);
}

proof fn lemma_letters_lines(s: Seq<char>)
    ensures
        all_letters(chars::lines(s)) == crate::fidelity::inline::letters(s),
    decreases s.len(),
{
    if s.len() > 0 {
        let n = chars::line_len(s);
        chars::lemma_line_len(s);
        if n < s.len() {
            let head = s.take(n);
            let rest = s.skip(n + 1);
            lemma_letters_lines(rest);
            lemma_all_letters_concat(seq![chars::strip_cr(head)], chars::lines(rest));
            lemma_all_letters_one(chars::strip_cr(head));
            crate::fidelity::inline::lemma_letters_concat(head, seq!['\n']);
            crate::fidelity::inline::lemma_letters_concat(head + seq!['\n'], rest);
            crate::fidelity::inline::lemma_letters_one('\n');
            assert(head + seq!['\n'] + rest =~= s);
        } else {
            lemma_all_letters_one(s);
        }
    }
}

proof fn lemma_letters_join(parts: Seq<Seq<char>>, sep: Seq<char>)
    requires
        crate::fidelity::inline::letters(sep) == Seq::<char>::empty(),
    ensures
        crate::fidelity::inline::letters(chars::join(parts, sep)) == all_letters(parts),
    decreases parts.len(),
{
    if parts.len() == 1 {
        assert(parts =~= seq![parts[0]]);
        lemma_all_letters_one(parts[0]);
    } else if parts.len() > 1 {
        lemma_letters_join(parts.drop_last(), sep);
        let h = chars::join(parts.drop_last(), sep);
        crate::fidelity::inline::lemma_letters_concat(h, sep);
        crate::fidelity::inline::lemma_letters_concat(h + sep, parts.last());
    }
}

proof fn lemma_quote(p: Page, s: Sheet, ls: Seq<Seq<char>>)
    ensures
        adds(s, markdown::quote_lines(p, s, ls), all_letters(ls)),
    decreases ls.len(),
{
    if ls.len() == 0 {
        assert(crate::fidelity::inline::letters(s.out) + seq![] =~= crate::fidelity::inline::letters(s.out));
    } else {
        lemma_quote(p, s, ls.drop_last());
        let a = markdown::quote_lines(p, s, ls.drop_last());
        let t = if ls.last().len() == 0 {
            ">"@
        } else {
            "> "@ + ls.last()
        };
        reveal_strlit(">");
        reveal_strlit("> ");
        crate::fidelity::inline::lemma_letters_marks(">"@);
        crate::fidelity::inline::lemma_letters_marks("> "@);
        crate::fidelity::inline::lemma_letters_concat("> "@, ls.last());
        if ls.last().len() == 0 {
            assert(ls.last() =~= seq![]);
        }
        assert(crate::fidelity::inline::letters(t) =~= crate::fidelity::inline::letters(ls.last()));
        lemma_line(p, a, t);
        lemma_adds(
            s,
            a,
            markdown::quote_lines(p, s, ls),
            all_letters(ls.drop_last()),
            crate::fidelity::inline::letters(t),
        );
    }
}

proof fn lemma_hanging(p: Page, s: Sheet, ls: Seq<Seq<char>>, pad: Seq<char>)
    requires
        crate::fidelity::inline::letters(pad) == Seq::<char>::empty(),
    ensures
        adds(s, markdown::hanging_lines(p, s, ls, pad), all_letters(ls)),
    decreases ls.len(),
{
    if ls.len() == 0 {
        assert(crate::fidelity::inline::letters(s.out) + seq![] =~= crate::fidelity::inline::letters(s.out));
    } else {
        lemma_hanging(p, s, ls.drop_last(), pad);
        let a = markdown::hanging_lines(p, s, ls.drop_last(), pad);
        let r = markdown::hanging_lines(p, s, ls, pad);
        reveal_strlit("\n");
        crate::fidelity::inline::lemma_letters_marks("\n"@);
        lemma_push(p, a, "\n"@);
        crate::fidelity::inline::lemma_letters_concat(pad, ls.last());
        lemma_line(p, a, pad + ls.last());
        assert(crate::fidelity::inline::letters(pad + ls.last()) =~= crate::fidelity::inline::letters(ls.last()));
        if ls.last().len() == 0 {
            assert(ls.last() =~= seq![]);
        }
        lemma_adds(s, a, r, all_letters(ls.drop_last()), crate::fidelity::inline::letters(ls.last()));
    }
}

proof fn lemma_spaces(n: nat)
    ensures
        crate::fidelity::inline::letters(chars::repeat(" "@, n)) == Seq::<char>::empty(),
    decreases n,
{
    reveal_strlit(" ");
    if n > 0 {
        lemma_spaces((n - 1) as nat);
        crate::fidelity::inline::lemma_letters_marks(" "@);
        crate::fidelity::inline::lemma_letters_concat(chars::repeat(" "@, (n - 1) as nat), " "@);
    }
}

/// The letters of a list item's marker: none for a bullet, the number and a dot for a
/// numbered item.
pub open spec fn marker_letters(ordered: bool, k: nat) -> Seq<char> {
    if ordered {
        chars::decimal(k).push('.')
    } else {
        seq![]
    }
}

proof fn lemma_marker(ordered: bool, i: nat)
    ensures
        crate::fidelity::inline::letters(markdown::list_marker(ordered, i)) == marker_letters(ordered, i + 1),
{
    reveal_strlit(". ");
    reveal_strlit("- ");
    if ordered {
        let d = chars::decimal(i + 1);
        crate::fidelity::tables::lemma_decimal(i + 1);
        lemma_digits(d);
        crate::fidelity::inline::lemma_letters_concat(d, ". "@);
        crate::fidelity::inline::lemma_letters_concat(seq!['.'], seq![' ']);
        crate::fidelity::inline::lemma_letters_one('.');
        crate::fidelity::inline::lemma_letters_one(' ');
        assert(". "@ =~= seq!['.'] + seq![' ']);
        assert(d + seq!['.'] =~= d.push('.'));
        assert(crate::fidelity::inline::letters(". "@) =~= seq!['.']);
    } else {
        crate::fidelity::inline::lemma_letters_marks("- "@);
    }
}

proof fn lemma_digits(d: Seq<char>)
    requires
        chars::all_digits(d),
    ensures
        crate::fidelity::inline::letters(d) == d,
    decreases d.len(),
{
    if d.len() > 0 {
        let e = d.drop_last();
        assert forall|i: int| 0 <= i < e.len() implies chars::is_digit(#[trigger] e[i]) by {
            assert(e[i] == d[i]);
        }
        lemma_digits(e);
        assert(chars::is_digit(d[d.len() - 1]));
        assert(e.push(d.last()) =~= d);
    }
}

proof fn lemma_item(p: Page, s: Sheet, marker: Seq<char>, body: Seq<char>)
    ensures
        adds(
            s,
            markdown::item(p, s, marker, body),
            crate::fidelity::inline::letters(marker) + crate::fidelity::inline::letters(body),
        ),
{
    let cut = chars::trim_end(body);
    let ls = chars::lines(cut);
    crate::fidelity::inline::lemma_letters_trim_end(body);
    lemma_letters_lines(cut);
    if ls.len() == 0 {
        crate::fidelity::inline::lemma_letters_trim_end(marker);
        lemma_line(p, s, chars::trim_end(marker));
        assert(all_letters(ls) =~= seq![]);
        assert(crate::fidelity::inline::letters(marker) + crate::fidelity::inline::letters(body) =~= crate::fidelity::inline::letters(marker));
    } else {
        let a = markdown::line(p, s, marker + ls[0]);
        let pad = chars::repeat(" "@, chars::byte_len(marker));
        lemma_line(p, s, marker + ls[0]);
        crate::fidelity::inline::lemma_letters_concat(marker, ls[0]);
        lemma_spaces(chars::byte_len(marker));
        lemma_hanging(p, a, ls.skip(1), pad);
        lemma_all_letters_concat(seq![ls[0]], ls.skip(1));
        lemma_all_letters_one(ls[0]);
        assert(seq![ls[0]] + ls.skip(1) =~= ls);
        lemma_adds(
            s,
            a,
            markdown::item(p, s, marker, body),
            crate::fidelity::inline::letters(marker) + crate::fidelity::inline::letters(ls[0]),
            all_letters(ls.skip(1)),
        );
        assert(crate::fidelity::inline::letters(marker) + crate::fidelity::inline::letters(ls[0]) + all_letters(ls.skip(1))
            =~= crate::fidelity::inline::letters(marker) + (crate::fidelity::inline::letters(ls[0]) + all_letters(ls.skip(1))));
    }
}

/// The letters of a row's cells.
pub open spec fn row_letters(row: Seq<Seq<SpanV>>) -> Seq<char>
    decreases row.len(),
{
    if row.len() == 0 {
        seq![]
    } else {
        row_letters(row.drop_last()) + crate::fidelity::inline::letters(ir::plain(row.last()))
    }
}

pub open spec fn rows_letters(rows: Seq<Seq<Seq<SpanV>>>) -> Seq<char>
    decreases rows.len(),
{
    if rows.len() == 0 {
        seq![]
    } else {
        rows_letters(rows.drop_last()) + row_letters(rows.last())
    }
}

/// The letters of a table: its caption's, its header's and its rows'.
pub open spec fn table_letters(t: TableV) -> Seq<char> {
    (match t.caption {
        Some(c) => crate::fidelity::inline::letters(c),
        None => seq![],
    }) + (match t.header {
        Some(h) => row_letters(h),
        None => seq![],
    }) + rows_letters(t.rows)
}

/// The letters of a block and of what it holds, in the order of the document.
pub open spec fn block_letters(b: BlockV) -> Seq<char>
    decreases b, 0int,
{
    match b {
        BlockV::Heading { text, .. } => crate::fidelity::inline::letters(ir::plain(text)),
        BlockV::Paragraph(text) => crate::fidelity::inline::letters(ir::plain(text)),
        BlockV::List { ordered, items } => item_letters(ordered, items),
        BlockV::Table(t) => table_letters(t),
        BlockV::Code { language, text } => (match language {
            Some(l) => crate::fidelity::inline::letters(l),
            None => seq![],
        }) + crate::fidelity::inline::letters(text),
        BlockV::Quote(inner) => blocks_letters(inner),
        BlockV::Raw { markdown } => crate::fidelity::inline::letters(markdown),
        BlockV::Embedded { name, doc } => crate::fidelity::inline::letters(name) + blocks_letters(doc.blocks),
        BlockV::RawHtml { html } => crate::fidelity::inline::letters(html),
        BlockV::Image(_) => seq![],
        BlockV::Rule => seq![],
    }
}

pub open spec fn item_letters(ordered: bool, items: Seq<Seq<BlockV>>) -> Seq<char>
    decreases items, 0int,
{
    if items.len() == 0 {
        seq![]
    } else {
        item_letters(ordered, items.drop_last()) + (marker_letters(ordered, items.len())
            + blocks_letters(items.last()))
    }
}

pub open spec fn blocks_letters(bs: Seq<BlockV>) -> Seq<char>
    decreases bs, 0int,
{
    if bs.len() == 0 {
        seq![]
    } else {
        blocks_letters(bs.drop_last()) + block_letters(bs.last())
    }
}

/// The row's cells hold no link and no line end.
pub open spec fn is_plain_row(row: Seq<Seq<SpanV>>) -> bool {
    forall|j: int| 0 <= j < row.len() ==> crate::fidelity::inline::is_linkless(#[trigger] row[j], true)
}

/// The block holds no link and no image, no HTML that is dropped and no table that is
/// cut.
pub open spec fn is_plain_block(p: Page, b: BlockV) -> bool
    decreases b, 0int,
{
    match b {
        BlockV::Heading { text, .. } => crate::fidelity::inline::is_linkless(text, false),
        BlockV::Paragraph(text) => crate::fidelity::inline::is_linkless(text, false),
        BlockV::List { items, .. } => are_plain_items(p, items),
        BlockV::Table(t) => {
            &&& t.rows.len() <= p.max_rows
            &&& t.header matches Some(h) ==> is_plain_row(h)
            &&& forall|i: int| 0 <= i < t.rows.len() ==> is_plain_row(#[trigger] t.rows[i])
        },
        BlockV::Quote(inner) => are_plain_blocks(p, inner),
        BlockV::RawHtml { .. } => p.opts.preserve_unsupported_html,
        BlockV::Embedded { doc, .. } => are_plain_blocks(p, doc.blocks),
        BlockV::Image(_) => false,
        _ => true,
    }
}

pub open spec fn are_plain_items(p: Page, items: Seq<Seq<BlockV>>) -> bool
    decreases items, 0int,
{
    items.len() == 0 || (are_plain_items(p, items.drop_last()) && are_plain_blocks(
        p,
        items.last(),
    ))
}

pub open spec fn are_plain_blocks(p: Page, bs: Seq<BlockV>) -> bool
    decreases bs, 0int,
{
    bs.len() == 0 || (are_plain_blocks(p, bs.drop_last()) && is_plain_block(p, bs.last()))
}

/// The letters of padded cells are those of the cells.
proof fn lemma_padded(row: Seq<Seq<SpanV>>, width: nat)
    requires
        row.len() <= width,
        is_plain_row(row),
    ensures
        all_letters(markdown::pad_cells(row, width)) == row_letters(row),
    decreases width,
{
    let cells = markdown::pad_cells(row, width);
    if width == 0 {
        assert(row =~= seq![]);
    } else if row.len() < width {
        lemma_padded(row, (width - 1) as nat);
        assert(cells.drop_last() =~= markdown::pad_cells(row, (width - 1) as nat));
        assert(cells.last() =~= seq![]);
        assert(row_letters(row) + seq![] =~= row_letters(row));
    } else {
        let before = row.drop_last();
        assert forall|j: int| 0 <= j < before.len() implies crate::fidelity::inline::is_linkless(
            #[trigger] before[j],
            true,
        ) by {
            assert(before[j] == row[j]);
        }
        lemma_padded(before, (width - 1) as nat);
        assert(cells.drop_last() =~= markdown::pad_cells(before, (width - 1) as nat)) by {
            assert forall|j: int| 0 <= j < width - 1 implies cells[j] == markdown::pad_cells(
                before,
                (width - 1) as nat,
            )[j] by {
                assert(before[j] == row[j]);
            }
        }
        assert(crate::fidelity::inline::is_linkless(row[row.len() - 1], true));
        crate::fidelity::inline::inline_content_keeps_its_letters(row.last(), true);
        assert(cells.last() == markdown::inline_cell(row.last()));
    }
}

proof fn lemma_pipe_row(cells: Seq<Seq<char>>)
    ensures
        crate::fidelity::inline::letters(markdown::pipe_row(cells)) == all_letters(cells),
{
    reveal_strlit("| ");
    reveal_strlit(" | ");
    reveal_strlit(" |");
    crate::fidelity::inline::lemma_letters_marks("| "@);
    crate::fidelity::inline::lemma_letters_marks(" | "@);
    crate::fidelity::inline::lemma_letters_marks(" |"@);
    lemma_letters_join(cells, " | "@);
    let j = chars::join(cells, " | "@);
    crate::fidelity::inline::lemma_letters_concat("| "@, j);
    crate::fidelity::inline::lemma_letters_concat("| "@ + j, " |"@);
    assert(crate::fidelity::inline::letters(markdown::pipe_row(cells)) =~= all_letters(cells));
}

proof fn lemma_dashes(w: nat)
    ensures
        all_letters(markdown::dashes(w)) == Seq::<char>::empty(),
    decreases w,
{
    reveal_strlit("---");
    if w > 0 {
        lemma_dashes((w - 1) as nat);
        assert(markdown::dashes(w).drop_last() =~= markdown::dashes((w - 1) as nat));
        crate::fidelity::inline::lemma_letters_marks("---"@);
    }
}

proof fn lemma_pipe_rows(p: Page, s: Sheet, rows: Seq<Seq<Seq<SpanV>>>, width: nat)
    requires
        forall|i: int|
            0 <= i < rows.len() ==> is_plain_row(#[trigger] rows[i]) && rows[i].len() <= width,
    ensures
        adds(s, markdown::pipe_rows(p, s, rows, width), rows_letters(rows)),
    decreases rows.len(),
{
    if rows.len() == 0 {
        assert(crate::fidelity::inline::letters(s.out) + seq![] =~= crate::fidelity::inline::letters(s.out));
    } else {
        let before = rows.drop_last();
        assert forall|i: int| 0 <= i < before.len() implies is_plain_row(#[trigger] before[i])
            && before[i].len() <= width by {
            assert(before[i] == rows[i]);
        }
        lemma_pipe_rows(p, s, before, width);
        let row = rows[rows.len() - 1];
        assert(is_plain_row(row) && row.len() <= width);
        lemma_padded(row, width);
        let cells = markdown::pad_cells(row, width);
        lemma_pipe_row(cells);
        let a = markdown::pipe_rows(p, s, before, width);
        lemma_line(p, a, markdown::pipe_row(cells));
        lemma_adds(
            s,
            a,
            markdown::pipe_rows(p, s, rows, width),
            rows_letters(before),
            row_letters(row),
        );
    }
}

proof fn lemma_table(p: Page, s: Sheet, t: TableV)
    requires
        is_plain_block(p, BlockV::Table(t)),
        p.opts.tables == TableStyle::Gfm,
    ensures
        adds(s, markdown::table(p, s, t), table_letters(t)),
{
    let w = t.width();
    let cap = match t.caption {
        Some(c) => crate::fidelity::inline::letters(c),
        None => seq![],
    };
    let head = match t.header {
        Some(h) => row_letters(h),
        None => seq![],
    };
    let a = markdown::table_caption(p, s, t);
    lemma_caption(p, s, t);
    ir::width_covers_rows(t);
    if w == 0 {
        assert(head =~= seq![]);
        lemma_empty_rows(t.rows);
        assert(cap + head + rows_letters(t.rows) =~= cap);
    } else {
        let cells = match t.header {
            Some(h) => markdown::pad_cells(h, w),
            None => Seq::new(w, |i: int| Seq::<char>::empty()),
        };
        let none = Seq::<Seq<SpanV>>::empty();
        match t.header {
            Some(h) => lemma_padded(h, w),
            None => {
                assert(cells =~= markdown::pad_cells(none, w));
                lemma_padded(none, w);
                assert(row_letters(none) =~= seq![]);
            },
        }
        lemma_pipe_row(cells);
        lemma_line(p, a, markdown::pipe_row(cells));
        let b = markdown::line(p, a, markdown::pipe_row(cells));
        lemma_dashes(w);
        lemma_pipe_row(markdown::dashes(w));
        lemma_line(p, b, markdown::pipe_row(markdown::dashes(w)));
        let c = markdown::line(p, b, markdown::pipe_row(markdown::dashes(w)));
        assert forall|i: int| 0 <= i < t.rows.len() implies is_plain_row(#[trigger] t.rows[i])
            && t.rows[i].len() <= w by {
            assert(t.rows[i].len() <= t.width());
        }
        lemma_pipe_rows(p, c, t.rows, w);
        lemma_adds(s, a, b, cap, head);
        lemma_adds_nothing(s, b, c, cap + head);
        lemma_adds(
            s,
            c,
            markdown::pipe_rows(p, c, t.rows, w),
            cap + head,
            rows_letters(t.rows),
        );
    }
}

/// A table without columns holds nothing.
proof fn lemma_empty_rows(rows: Seq<Seq<Seq<SpanV>>>)
    requires
        ir::widest(rows) == 0,
    ensures
        rows_letters(rows) == Seq::<char>::empty(),
    decreases rows.len(),
{
    if rows.len() > 0 {
        lemma_empty_rows(rows.drop_last());
        assert(rows.last() =~= seq![]);
        assert(row_letters(rows.last()) =~= seq![]);
    }
}

proof fn lemma_caption(p: Page, s: Sheet, t: TableV)
    ensures
        adds(
            s,
            markdown::table_caption(p, s, t),
            match t.caption {
                Some(c) => crate::fidelity::inline::letters(c),
                None => seq![],
            },
        ),
{
    assert(crate::fidelity::inline::letters(s.out) + seq![] =~= crate::fidelity::inline::letters(s.out));
    if let Some(c) = t.caption {
        if chars::is_blank(c) {
            crate::fidelity::inline::lemma_letters_trim(c);
            assert(chars::trim(c) =~= seq![]);
        } else {
            reveal_strlit("**");
            crate::fidelity::inline::lemma_letters_marks("**"@);
            let e = markdown::escape_text(c);
            crate::fidelity::inline::lemma_letters_escape_text(c);
            crate::fidelity::inline::lemma_letters_concat("**"@, e);
            crate::fidelity::inline::lemma_letters_concat("**"@ + e, "**"@);
            let l = "**"@ + e + "**"@;
            assert(crate::fidelity::inline::letters(l) =~= crate::fidelity::inline::letters(c));
            lemma_line(p, s, l);
            let a = markdown::line(p, s, l);
            lemma_blank(p, a);
            lemma_adds_nothing(s, a, markdown::blank(p, a), crate::fidelity::inline::letters(c));
        }
    }
}

proof fn lemma_trim_newlines(s: Seq<char>)
    ensures
        crate::fidelity::inline::letters(chars::trim_end_char(s, '\n')) == crate::fidelity::inline::letters(s),
    decreases s.len(),
{
    if s.len() > 0 && s.last() == '\n' {
        lemma_trim_newlines(s.drop_last());
    }
}

proof fn lemma_code(p: Page, s: Sheet, language: Option<Seq<char>>, text: Seq<char>)
    ensures
        adds(
            s,
            markdown::code(p, s, language, text),
            block_letters(BlockV::Code { language, text }),
        ),
{
    reveal_strlit("");
    let fence = markdown::fence_for(text);
    let n = markdown::longest_backtick_run(text);
    let k = if n > 2 {
        n + 1
    } else {
        3
    };
    guarantees::lemma_repeat_tick(k);
    crate::fidelity::inline::lemma_letters_marks(fence);
    let tag = match language {
        Some(l) => l,
        None => ""@,
    };
    if language is None {
        assert(tag =~= seq![]);
    }
    let inner = chars::trim_end_char(text, '\n');
    lemma_trim_newlines(text);
    crate::fidelity::inline::lemma_letters_concat(fence, tag);
    lemma_line(p, s, fence + tag);
    let a = markdown::line(p, s, fence + tag);
    lemma_line(p, a, inner);
    let b = markdown::line(p, a, inner);
    lemma_line(p, b, fence);
    let tagged = crate::fidelity::inline::letters(tag);
    assert(crate::fidelity::inline::letters(fence + tag) =~= tagged);
    lemma_adds(s, a, b, tagged, crate::fidelity::inline::letters(text));
    lemma_adds_nothing(s, b, markdown::line(p, b, fence), tagged + crate::fidelity::inline::letters(text));
    assert(block_letters(BlockV::Code { language, text }) =~= tagged + crate::fidelity::inline::letters(text));
}

proof fn lemma_list(p: Page, s: Sheet, ordered: bool, items: Seq<Seq<BlockV>>)
    requires
        are_plain_items(p, items),
        p.opts.tables == TableStyle::Gfm,
    ensures
        adds(s, markdown::list(p, s, ordered, items), item_letters(ordered, items)),
    decreases items, 0int,
{
    if items.len() == 0 {
        assert(crate::fidelity::inline::letters(s.out) + seq![] =~= crate::fidelity::inline::letters(s.out));
    } else {
        let before = items.drop_last();
        lemma_list(p, s, ordered, before);
        lemma_fragment(p, items.last());
        let f = markdown::fragment(p, items.last());
        let t = markdown::list(p, s, ordered, before);
        let a = markdown::joined(t, f);
        let m = markdown::list_marker(ordered, (items.len() - 1) as nat);
        let q = if markdown::any_verbatim(items.last()) {
            markdown::loose(p)
        } else {
            p
        };
        lemma_marker(ordered, (items.len() - 1) as nat);
        lemma_item(q, a, m, f.out);
        let r = markdown::list(p, s, ordered, items);
        if !r.truncated {
            assert(!a.truncated);
            assert(!f.truncated);
            assert(adds(t, r, marker_letters(ordered, items.len()) + blocks_letters(items.last())));
            lemma_adds(
                s,
                t,
                r,
                item_letters(ordered, before),
                marker_letters(ordered, items.len()) + blocks_letters(items.last()),
            );
        }
    }
}

proof fn lemma_fragment(p: Page, bs: Seq<BlockV>)
    requires
        are_plain_blocks(p, bs),
        p.opts.tables == TableStyle::Gfm,
    ensures
        !markdown::fragment(p, bs).truncated ==> crate::fidelity::inline::letters(markdown::fragment(p, bs).out)
            == blocks_letters(bs),
    decreases bs, 1int,
{
    let q = markdown::loose(p);
    lemma_plain_loose(p, bs);
    lemma_blocks(q, markdown::fresh(), bs, 0);
    let s = markdown::blocks(q, markdown::fresh(), bs, 0);
    crate::fidelity::inline::lemma_letters_trim(s.out);
    assert(crate::fidelity::inline::letters(markdown::fresh().out) + blocks_letters(bs) =~= blocks_letters(bs));
}

proof fn lemma_plain_loose(p: Page, bs: Seq<BlockV>)
    ensures
        are_plain_blocks(markdown::loose(p), bs) == are_plain_blocks(p, bs),
    decreases bs, 0int,
{
    if bs.len() > 0 {
        lemma_plain_loose(p, bs.drop_last());
        lemma_plain_block_loose(p, bs.last());
    }
}

proof fn lemma_plain_block_loose(p: Page, b: BlockV)
    ensures
        is_plain_block(markdown::loose(p), b) == is_plain_block(p, b),
    decreases b, 0int,
{
    match b {
        BlockV::List { items, .. } => lemma_plain_items_loose(p, items),
        BlockV::Quote(inner) => lemma_plain_loose(p, inner),
        BlockV::Embedded { doc, .. } => lemma_plain_loose(p, doc.blocks),
        _ => {},
    }
}

proof fn lemma_plain_items_loose(p: Page, items: Seq<Seq<BlockV>>)
    ensures
        are_plain_items(markdown::loose(p), items) == are_plain_items(p, items),
    decreases items, 0int,
{
    if items.len() > 0 {
        lemma_plain_items_loose(p, items.drop_last());
        lemma_plain_loose(p, items.last());
    }
}

proof fn lemma_hashes(n: nat)
    ensures
        crate::fidelity::inline::letters(chars::repeat("#"@, n)) == Seq::<char>::empty(),
        chars::repeat("#"@, n).len() == n,
        forall|i: int| 0 <= i < n ==> #[trigger] chars::repeat("#"@, n)[i] == '#',
    decreases n,
{
    reveal_strlit("#");
    if n > 0 {
        lemma_hashes((n - 1) as nat);
        crate::fidelity::inline::lemma_letters_marks("#"@);
        crate::fidelity::inline::lemma_letters_concat(chars::repeat("#"@, (n - 1) as nat), "#"@);
    }
}

#[verifier::rlimit(60)]
#[verifier::spinoff_prover]
proof fn lemma_block(p: Page, s: Sheet, b: BlockV, extra: u8)
    requires
        is_plain_block(p, b),
        p.opts.tables == TableStyle::Gfm,
    ensures
        adds(s, markdown::block(p, s, b, extra), block_letters(b)),
    decreases b, 0int,
{
    let z = markdown::blank(p, s);
    match b {
        BlockV::Heading { level, text } => {
            let n = markdown::heading_level(level, p.opts.heading_offset, extra);
            let h = chars::repeat("#"@, n);
            let i = markdown::inline(text);
            reveal_strlit(" ");
            lemma_hashes(n);
            crate::fidelity::inline::lemma_letters_marks(" "@);
            crate::fidelity::inline::lemma_letters_concat(h, " "@);
            crate::fidelity::inline::lemma_letters_concat(h + " "@, i);
            crate::fidelity::inline::inline_content_keeps_its_letters(text, false);
            assert(crate::fidelity::inline::letters(h + " "@ + i) =~= crate::fidelity::inline::letters(ir::plain(text)));
            lemma_spaced_line(p, s, h + " "@ + i);
        },
        BlockV::Paragraph(text) => {
            if chars::is_blank(ir::plain(text)) {
                crate::fidelity::inline::lemma_letters_trim(ir::plain(text));
                assert(chars::trim(ir::plain(text)) =~= seq![]);
                assert(crate::fidelity::inline::letters(s.out) + seq![] =~= crate::fidelity::inline::letters(s.out));
            } else {
                crate::fidelity::inline::inline_content_keeps_its_letters(text, false);
                lemma_spaced_line(p, s, markdown::inline(text));
            }
        },
        BlockV::List { ordered, items } => {
            lemma_list(p, z, ordered, items);
            lemma_spaced(
                p,
                s,
                markdown::list(p, z, ordered, items),
                item_letters(ordered, items),
            );
        },
        BlockV::Table(t) => {
            lemma_table(p, z, t);
            lemma_spaced(p, s, markdown::table(p, z, t), table_letters(t));
        },
        BlockV::Code { language, text } => {
            let q = markdown::loose(p);
            lemma_code(q, z, language, text);
            lemma_spaced(p, s, markdown::code(q, z, language, text), block_letters(b));
        },
        BlockV::Quote(inner) => {
            lemma_fragment(p, inner);
            let f = markdown::fragment(p, inner);
            let a = markdown::joined(z, f);
            let ls = chars::lines(f.out);
            lemma_letters_lines(f.out);
            lemma_quote(p, a, ls);
            let u = markdown::quote_lines(p, a, ls);
            if !u.truncated {
                assert(adds(z, u, blocks_letters(inner)));
                lemma_spaced(p, s, u, blocks_letters(inner));
            }
        },
        BlockV::Raw { markdown: m } => {
            crate::fidelity::inline::lemma_letters_trim_end(m);
            lemma_verbatim_line(p, s, chars::trim_end(m));
        },
        BlockV::RawHtml { html } => {
            crate::fidelity::inline::lemma_letters_trim_end(html);
            lemma_verbatim_line(p, s, chars::trim_end(html));
        },
        BlockV::Rule => {
            reveal_strlit("---");
            crate::fidelity::inline::lemma_letters_marks("---"@);
            lemma_spaced_line(p, s, "---"@);
        },
        BlockV::Embedded { name, doc } => {
            let n = markdown::heading_level(2, p.opts.heading_offset, 0);
            let h = chars::repeat("#"@, n);
            reveal_strlit(" ");
            lemma_hashes(n);
            crate::fidelity::inline::lemma_letters_marks(" "@);
            crate::fidelity::inline::lemma_letters_escape_text(name);
            crate::fidelity::inline::lemma_letters_concat(h, " "@);
            crate::fidelity::inline::lemma_letters_concat(h + " "@, markdown::escape_text(name));
            let head = markdown::member_heading(p, name);
            assert(crate::fidelity::inline::letters(head) =~= crate::fidelity::inline::letters(name));
            lemma_spaced_line(p, s, head);
            let a = markdown::spaced_line(p, s, head);
            lemma_blocks(p, a, doc.blocks, markdown::sat2(extra));
            let c = markdown::blocks(p, a, doc.blocks, markdown::sat2(extra));
            lemma_adds(s, a, c, crate::fidelity::inline::letters(name), blocks_letters(doc.blocks));
            lemma_blank(p, c);
            lemma_adds_nothing(
                s,
                c,
                markdown::blank(p, c),
                crate::fidelity::inline::letters(name) + blocks_letters(doc.blocks),
            );
        },
        BlockV::Image(_) => {},
    }
}

proof fn lemma_blocks(p: Page, s: Sheet, bs: Seq<BlockV>, extra: u8)
    requires
        are_plain_blocks(p, bs),
        p.opts.tables == TableStyle::Gfm,
    ensures
        adds(s, markdown::blocks(p, s, bs, extra), blocks_letters(bs)),
    decreases bs, 0int,
{
    if bs.len() == 0 {
        assert(crate::fidelity::inline::letters(s.out) + seq![] =~= crate::fidelity::inline::letters(s.out));
    } else {
        lemma_blocks(p, s, bs.drop_last(), extra);
        let t = markdown::blocks(p, s, bs.drop_last(), extra);
        lemma_block(p, t, bs.last(), extra);
        if !markdown::full(p, t) {
            lemma_adds(
                s,
                t,
                markdown::block(p, t, bs.last(), extra),
                blocks_letters(bs.drop_last()),
                block_letters(bs.last()),
            );
        }
    }
}

/// Nothing that a document says is lost, added or moved: where nothing is cut, what is
/// written is the letters of its blocks in their order, list items numbered from one
/// where their list is, but for white space and marks.
pub proof fn documents_keep_their_letters(p: Page, d: DocumentV)
    requires
        p.opts.front_matter == FrontMatter::Off,
        p.opts.tables == TableStyle::Gfm,
        are_plain_blocks(p, d.blocks),
        !markdown::body(p, d).truncated,
    ensures
        crate::fidelity::inline::letters(markdown::markdown(p, d)) == blocks_letters(d.blocks),
{
    lemma_blocks(p, markdown::fresh(), d.blocks, 0);
    let s = markdown::body(p, d).out;
    reveal_strlit("\n");
    crate::fidelity::inline::lemma_letters_marks("\n"@);
    crate::fidelity::inline::lemma_letters_trim_end(s);
    crate::fidelity::inline::lemma_letters_concat(chars::trim_end(s), "\n"@);
    assert(crate::fidelity::inline::letters(markdown::fresh().out) + blocks_letters(d.blocks) =~= blocks_letters(
        d.blocks,
    ));
    assert(crate::fidelity::inline::letters(markdown::markdown(p, d)) =~= blocks_letters(d.blocks));
}

/// What a first block writes on an empty sheet.
proof fn lemma_first_line(p: Page, t: Seq<char>)
    requires
        t.len() > 0,
        guarantees::one_line(t),
        !markdown::spaced_line(p, markdown::fresh(), t).truncated,
    ensures
        chars::starts_with(markdown::spaced_line(p, markdown::fresh(), t).out, t),
        markdown::spaced_line(p, markdown::fresh(), t).out.len() > t.len(),
        markdown::spaced_line(p, markdown::fresh(), t).out[t.len() as int] == '\n',
{
    reveal_strlit("\n");
    let s = markdown::fresh();
    assert(markdown::blank(p, s) == s);
    guarantees::lemma_one_line_taken(p, s, t);
    let a = markdown::line(p, s, t);
    assert(!a.truncated);
    assert(s.out + t + "\n"@ =~= t.push('\n'));
    let r = markdown::spaced_line(p, s, t).out;
    assert(r.take(t.len() as int + 1) =~= a.out);
    assert(r.take(t.len() as int) =~= t) by {
        assert forall|i: int| 0 <= i < t.len() implies r[i] == t[i] by {
            assert(r.take(t.len() as int + 1)[i] == a.out[i]);
        }
    }
    assert(r[t.len() as int] == r.take(t.len() as int + 1)[t.len() as int]);
}

/// A heading is written with as many hashes as its level says, one to six, then a space
/// and its text.
pub proof fn headings_show_their_level(p: Page, level: u8, text: Seq<SpanV>)
    requires
        guarantees::one_line(markdown::inline(text)),
        !markdown::block(p, markdown::fresh(), BlockV::Heading { level, text }, 0).truncated,
    ensures
        ({
            let out = markdown::block(
                p,
                markdown::fresh(),
                BlockV::Heading { level, text },
                0,
            ).out;
            let sum = level + p.opts.heading_offset;
            let n = if sum < 1 {
                1int
            } else if sum > 6 {
                6
            } else {
                sum
            };
            &&& out.len() > n
            &&& forall|i: int| 0 <= i < n ==> #[trigger] out[i] == '#'
            &&& out[n] == ' '
            &&& chars::starts_with(out.skip(n + 1), markdown::inline(text))
        }),
{
    reveal_strlit(" ");
    let n = markdown::heading_level(level, p.opts.heading_offset, 0);
    let h = chars::repeat("#"@, n);
    let i = markdown::inline(text);
    let t = h + " "@ + i;
    lemma_hashes(n);
    assert forall|k: int| 0 <= k < t.len() implies #[trigger] t[k] != '\n' by {
        if k < n {
            assert(t[k] == h[k]);
        } else if k > n {
            assert(t[k] == i[k - n - 1]);
        }
    }
    lemma_first_line(p, t);
    let out = markdown::spaced_line(p, markdown::fresh(), t).out;
    assert forall|k: int| 0 <= k < t.len() implies out[k] == t[k] by {
        assert(out.take(t.len() as int)[k] == t[k]);
    }
    assert forall|k: int| 0 <= k < n implies #[trigger] out[k] == '#' by {
        assert(out[k] == t[k]);
        assert(t[k] == h[k]);
    }
    assert(out[n as int] == t[n as int]);
    assert(out.skip(n as int + 1).take(i.len() as int) =~= i) by {
        assert forall|k: int| 0 <= k < i.len() implies out[n + 1 + k] == i[k] by {
            assert(out[n + 1 + k] == t[n + 1 + k]);
        }
    }
}

/// A code block is its language behind a fence of at least three backticks, its body as
/// it is but for line feeds at the end, and the same fence again.
pub proof fn code_blocks_keep_their_body(
    p: Page,
    language: Option<Seq<char>>,
    text: Seq<char>,
)
    requires
        !p.tight,
        !markdown::code(p, markdown::fresh(), language, text).truncated,
    ensures
        ({
            let out = markdown::code(p, markdown::fresh(), language, text).out;
            let tag = match language {
                Some(l) => l,
                None => seq![],
            };
            exists|n: nat|
                n >= 3 && out == #[trigger] crate::fidelity::inline::backticks(n) + tag + seq!['\n']
                    + chars::trim_end_char(text, '\n') + seq!['\n'] + crate::fidelity::inline::backticks(n) + seq![
                    '\n',
                ]
        }),
{
    reveal_strlit("");
    reveal_strlit("\n");
    assert("\n"@ =~= seq!['\n']);
    let m = markdown::longest_backtick_run(text);
    let n: nat = if m > 2 {
        m + 1
    } else {
        3
    };
    guarantees::lemma_repeat_tick(n);
    let ticks = crate::fidelity::inline::backticks(n);
    assert(markdown::fence_for(text) =~= ticks);
    let tag = match language {
        Some(l) => l,
        None => seq![],
    };
    assert(""@ =~= seq![]);
    let out = markdown::code(p, markdown::fresh(), language, text).out;
    assert(out =~= ticks + tag + seq!['\n'] + chars::trim_end_char(text, '\n') + seq!['\n'] + ticks
        + seq!['\n']);
}

} // verus!

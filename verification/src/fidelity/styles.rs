//! How rendered blocks look: tables in each style, front matter, pictures, quotes and
//! list items.

use vstd::prelude::*;
use crate::chars;
use crate::converters::html;
use crate::fidelity::web;
use crate::guarantees;
use crate::ir;
use crate::ir::{ImageRefV, ImageV, MetadataV, SpanV, TableV};
use crate::markdown;
use crate::markdown::{Page, Sheet};
use crate::render::TableStyle;

verus! {

spec fn escaped(s: Seq<char>) -> Seq<char> {
    guarantees::swapped(
        guarantees::swapped(guarantees::swapped(s, '&', "&amp;"@), '<', "&lt;"@),
        '>',
        "&gt;"@,
    )
}

proof fn lemma_escaped(s: Seq<char>)
    ensures
        markdown::html_escape(s) == escaped(s),
{
    reveal_strlit("&");
    reveal_strlit("<");
    reveal_strlit(">");
    assert("&"@ =~= seq!['&']);
    assert("<"@ =~= seq!['<']);
    assert(">"@ =~= seq!['>']);
    guarantees::lemma_replace_is_swapped(s, '&', "&amp;"@);
    let a = guarantees::swapped(s, '&', "&amp;"@);
    guarantees::lemma_replace_is_swapped(a, '<', "&lt;"@);
    let b = guarantees::swapped(a, '<', "&lt;"@);
    guarantees::lemma_replace_is_swapped(b, '>', "&gt;"@);
}

proof fn lemma_escaped_concat(a: Seq<char>, b: Seq<char>)
    ensures
        escaped(a + b) == escaped(a) + escaped(b),
{
    guarantees::lemma_swapped_concat(a, b, '&', "&amp;"@);
    let a1 = guarantees::swapped(a, '&', "&amp;"@);
    let b1 = guarantees::swapped(b, '&', "&amp;"@);
    guarantees::lemma_swapped_concat(a1, b1, '<', "&lt;"@);
    guarantees::lemma_swapped_concat(
        guarantees::swapped(a1, '<', "&lt;"@),
        guarantees::swapped(b1, '<', "&lt;"@),
        '>',
        "&gt;"@,
    );
}

proof fn lemma_escaped_one(c: char)
    ensures
        escaped(seq![c]) == (if c == '&' || c == '<' || c == '>' {
            web::written(c)
        } else {
            seq![c]
        }),
{
    reveal_strlit("&amp;");
    reveal_strlit("&lt;");
    reveal_strlit("&gt;");
    guarantees::lemma_swapped_one(c, '&', "&amp;"@);
    guarantees::lemma_swapped_one(c, '<', "&lt;"@);
    guarantees::lemma_swapped_one(c, '>', "&gt;"@);
    assert(!"&amp;"@.contains('<') && !"&amp;"@.contains('>') && !"&lt;"@.contains('>'));
    guarantees::lemma_swapped_without("&amp;"@, '<', "&lt;"@);
    guarantees::lemma_swapped_without("&amp;"@, '>', "&gt;"@);
    guarantees::lemma_swapped_without("&lt;"@, '>', "&gt;"@);
}

proof fn lemma_reads_back(s: Seq<char>)
    ensures
        html::spec_decode_entities(escaped(s)) == s,
    decreases s.len(),
{
    if s.len() == 0 {
        assert(guarantees::swapped(s, '&', "&amp;"@) =~= s);
        assert(guarantees::swapped(s, '<', "&lt;"@) =~= s);
        assert(guarantees::swapped(s, '>', "&gt;"@) =~= s);
        assert(escaped(s) =~= s);
    } else {
        let c = s[0];
        let rest = s.skip(1);
        lemma_reads_back(rest);
        assert(seq![c] + rest =~= s);
        lemma_escaped_concat(seq![c], rest);
        lemma_escaped_one(c);
        if c == '&' || c == '<' || c == '>' {
            web::lemma_written(c, escaped(rest));
        } else {
            let t = seq![c] + escaped(rest);
            assert(t[0] == c);
            web::lemma_no_entity(t);
            assert(t.skip(1) =~= escaped(rest));
        }
    }
}

/// A cell of an HTML table reads back as its text.
pub proof fn html_cells_read_back(s: Seq<char>)
    ensures
        html::spec_decode_entities(markdown::html_escape(s)) == s,
{
    lemma_escaped(s);
    lemma_reads_back(s);
}

/// A cell of a CSV table is its text, or its text between quotes with every quote in it
/// doubled. A comma, a quote and a line end only stand between quotes.
pub proof fn csv_cells_are_quoted(c: Seq<char>)
    ensures
        ({
            let special = c.contains(',') || c.contains('"') || c.contains('\n');
            &&& !special ==> markdown::csv_cell(c) == c
            &&& special ==> markdown::csv_cell(c) == seq!['"'] + guarantees::swapped(
                c,
                '"',
                seq!['"', '"'],
            ) + seq!['"']
        }),
{
    reveal_strlit("\"");
    reveal_strlit("\"\"");
    assert("\""@ =~= seq!['"']);
    assert("\"\""@ =~= seq!['"', '"']);
    guarantees::lemma_replace_is_swapped(c, '"', seq!['"', '"']);
}

/// The lines, each with its line feed.
pub open spec fn stacked(ls: Seq<Seq<char>>) -> Seq<char>
    decreases ls.len(),
{
    if ls.len() == 0 {
        seq![]
    } else {
        stacked(ls.drop_last()) + ls.last() + seq!['\n']
    }
}

proof fn lemma_stacked_concat(a: Seq<Seq<char>>, b: Seq<Seq<char>>)
    ensures
        stacked(a + b) == stacked(a) + stacked(b),
    decreases b.len(),
{
    if b.len() == 0 {
        assert(a + b =~= a);
        assert(stacked(a) + stacked(b) =~= stacked(a));
    } else {
        assert((a + b).drop_last() =~= a + b.drop_last());
        lemma_stacked_concat(a, b.drop_last());
        assert(stacked(a) + stacked(b.drop_last()) + b.last() + seq!['\n'] =~= stacked(a) + (
        stacked(b.drop_last()) + b.last() + seq!['\n']));
    }
}

proof fn lemma_stacked_one(l: Seq<char>)
    ensures
        stacked(seq![l]) == l + seq!['\n'],
{
    assert(seq![l].drop_last() =~= seq![]);
    assert(stacked(seq![l].drop_last()) =~= seq![]);
    assert(seq![] + l + seq!['\n'] =~= l + seq!['\n']);
}

/// Where nothing is cut, `r` is `s` with these lines behind it.
pub open spec fn writes(s: Sheet, r: Sheet, ls: Seq<Seq<char>>) -> bool {
    !r.truncated ==> !s.truncated && r.out == s.out + stacked(ls)
}

proof fn lemma_writes_nothing(s: Sheet)
    ensures
        writes(s, s, seq![]),
{
    assert(s.out + stacked(seq![]) =~= s.out);
}

proof fn lemma_writes(a: Sheet, b: Sheet, c: Sheet, x: Seq<Seq<char>>, y: Seq<Seq<char>>)
    requires
        writes(a, b, x),
        writes(b, c, y),
    ensures
        writes(a, c, x + y),
{
    lemma_stacked_concat(x, y);
    if !c.truncated {
        assert(a.out + stacked(x) + stacked(y) =~= a.out + (stacked(x) + stacked(y)));
    }
}

proof fn lemma_line(p: Page, s: Sheet, t: Seq<char>)
    requires
        !p.tight,
    ensures
        writes(s, markdown::line(p, s, t), seq![t]),
{
    reveal_strlit("\n");
    assert("\n"@ =~= seq!['\n']);
    lemma_stacked_one(t);
    assert(s.out + t + seq!['\n'] =~= s.out + (t + seq!['\n']));
}

/// Writing `x` and then one more line.
proof fn lemma_then(p: Page, a: Sheet, b: Sheet, x: Seq<Seq<char>>, t: Seq<char>)
    requires
        !p.tight,
        writes(a, b, x),
    ensures
        writes(a, markdown::line(p, b, t), x.push(t)),
{
    lemma_line(p, b, t);
    lemma_writes(a, b, markdown::line(p, b, t), x, seq![t]);
    assert(x + seq![t] =~= x.push(t));
}

/// The rows of a table as lines with pipes.
pub open spec fn piped(rows: Seq<Seq<Seq<SpanV>>>, width: nat) -> Seq<Seq<char>> {
    Seq::new(rows.len(), |i: int| markdown::pipe_row(markdown::pad_cells(rows[i], width)))
}

proof fn lemma_pipe_rows(p: Page, s: Sheet, rows: Seq<Seq<Seq<SpanV>>>, width: nat)
    requires
        !p.tight,
    ensures
        writes(s, markdown::pipe_rows(p, s, rows, width), piped(rows, width)),
    decreases rows.len(),
{
    if rows.len() == 0 {
        lemma_writes_nothing(s);
        assert(piped(rows, width) =~= seq![]);
    } else {
        let before = rows.drop_last();
        lemma_pipe_rows(p, s, before, width);
        let t = markdown::pipe_row(markdown::pad_cells(rows.last(), width));
        lemma_then(p, s, markdown::pipe_rows(p, s, before, width), piped(before, width), t);
        assert(piped(before, width).push(t) =~= piped(rows, width));
    }
}

/// A table with pipes is its header row, a row of dashes, and a row for each row.
pub proof fn pipe_tables_have_a_row_for_each_row(
    p: Page,
    s: Sheet,
    t: TableV,
    header: Seq<Seq<SpanV>>,
)
    requires
        !p.tight,
        t.header == Some(header),
        t.caption is None,
        t.width() > 0,
        t.rows.len() <= p.max_rows,
        p.opts.tables == TableStyle::Gfm,
    ensures
        writes(
            s,
            markdown::table(p, s, t),
            seq![
                markdown::pipe_row(markdown::pad_cells(header, t.width())),
                markdown::pipe_row(Seq::new(t.width(), |i: int| seq!['-', '-', '-'])),
            ] + piped(t.rows, t.width()),
        ),
{
    reveal_strlit("---");
    assert("---"@ =~= seq!['-', '-', '-']);
    let w = t.width();
    let a = markdown::pipe_row(markdown::pad_cells(header, w));
    let dashes = Seq::new(w, |i: int| seq!['-', '-', '-']);
    assert(markdown::dashes(w) =~= dashes);
    let b = markdown::pipe_row(dashes);
    lemma_line(p, s, a);
    let s1 = markdown::line(p, s, a);
    lemma_then(p, s, s1, seq![a], b);
    let s2 = markdown::line(p, s1, b);
    assert(seq![a].push(b) =~= seq![a, b]);
    lemma_pipe_rows(p, s2, t.rows, w);
    lemma_writes(
        s,
        s2,
        markdown::pipe_rows(p, s2, t.rows, w),
        seq![a, b],
        piped(t.rows, w),
    );
}

/// The rows of a table as CSV records.
pub open spec fn records(rows: Seq<Seq<Seq<SpanV>>>, width: nat) -> Seq<Seq<char>> {
    Seq::new(rows.len(), |i: int| record(rows[i], width))
}

/// One CSV record: the cells' texts, quoted where they must be, with commas between
/// them, and as many as the table has columns.
pub open spec fn record(row: Seq<Seq<SpanV>>, width: nat) -> Seq<char> {
    chars::join(
        Seq::new(
            width,
            |j: int|
                if j < row.len() {
                    markdown::csv_cell(ir::plain(row[j]))
                } else {
                    seq![]
                },
        ),
        seq![','],
    )
}

proof fn lemma_record(row: Seq<Seq<SpanV>>, width: nat)
    ensures
        markdown::csv_row(markdown::pad_cells_raw(row, width)) == record(row, width),
{
    reveal_strlit(",");
    assert(","@ =~= seq![',']);
    let raw = markdown::pad_cells_raw(row, width);
    let none = Seq::<char>::empty();
    assert(!none.contains(',') && !none.contains('"') && !none.contains('\n'));
    assert(Seq::new(raw.len(), |i: int| markdown::csv_cell(raw[i])) =~= Seq::new(
        width,
        |j: int|
            if j < row.len() {
                markdown::csv_cell(ir::plain(row[j]))
            } else {
                seq![]
            },
    ));
}

proof fn lemma_csv_rows(p: Page, s: Sheet, rows: Seq<Seq<Seq<SpanV>>>, width: nat)
    requires
        !p.tight,
    ensures
        writes(s, markdown::csv_rows(p, s, rows, width), records(rows, width)),
    decreases rows.len(),
{
    if rows.len() == 0 {
        lemma_writes_nothing(s);
        assert(records(rows, width) =~= seq![]);
    } else {
        let before = rows.drop_last();
        lemma_csv_rows(p, s, before, width);
        lemma_record(rows.last(), width);
        let t = record(rows.last(), width);
        lemma_then(p, s, markdown::csv_rows(p, s, before, width), records(before, width), t);
        assert(records(before, width).push(t) =~= records(rows, width));
    }
}

/// A table in CSV is a code block of records: the header, then a record for each row.
pub proof fn csv_tables_have_a_record_for_each_row(
    p: Page,
    s: Sheet,
    t: TableV,
    header: Seq<Seq<SpanV>>,
)
    requires
        !p.tight,
        t.header == Some(header),
        t.caption is None,
        t.width() > 0,
        t.rows.len() <= p.max_rows,
        p.opts.tables == TableStyle::Csv,
    ensures
        writes(
            s,
            markdown::table(p, s, t),
            (seq![seq!['`', '`', '`', 'c', 's', 'v'], record(header, t.width())] + records(
                t.rows,
                t.width(),
            )).push(seq!['`', '`', '`']),
        ),
{
    reveal_strlit("```csv");
    reveal_strlit("```");
    assert("```csv"@ =~= seq!['`', '`', '`', 'c', 's', 'v']);
    assert("```"@ =~= seq!['`', '`', '`']);
    let w = t.width();
    let a = "```csv"@;
    lemma_record(header, w);
    let h = record(header, w);
    lemma_line(p, s, a);
    let s1 = markdown::line(p, s, a);
    lemma_then(p, s, s1, seq![a], h);
    let s2 = markdown::line(p, s1, h);
    assert(seq![a].push(h) =~= seq![a, h]);
    lemma_csv_rows(p, s2, t.rows, w);
    let s3 = markdown::csv_rows(p, s2, t.rows, w);
    lemma_writes(s, s2, s3, seq![a, h], records(t.rows, w));
    lemma_then(p, s, s3, seq![a, h] + records(t.rows, w), "```"@);
}

/// The cells of a row, each between its tags, as many as the table has columns.
pub open spec fn tagged(row: Seq<Seq<SpanV>>, width: nat, open: Seq<char>, close: Seq<char>) -> Seq<
    Seq<char>,
> {
    Seq::new(
        width,
        |j: int|
            open + (if j < row.len() {
                markdown::html_escape(ir::plain(row[j]))
            } else {
                markdown::html_escape(seq![])
            }) + close,
    )
}

proof fn lemma_html_cells(
    p: Page,
    s: Sheet,
    cells: Seq<Seq<char>>,
    open: Seq<char>,
    close: Seq<char>,
)
    requires
        !p.tight,
    ensures
        writes(
            s,
            markdown::html_cells(p, s, cells, open, close),
            Seq::new(cells.len(), |j: int| open + markdown::html_escape(cells[j]) + close),
        ),
    decreases cells.len(),
{
    let all = Seq::new(cells.len(), |j: int| open + markdown::html_escape(cells[j]) + close);
    if cells.len() == 0 {
        lemma_writes_nothing(s);
        assert(all =~= seq![]);
    } else {
        let before = cells.drop_last();
        lemma_html_cells(p, s, before, open, close);
        let x = Seq::new(before.len(), |j: int| open + markdown::html_escape(before[j]) + close);
        let t = open + markdown::html_escape(cells.last()) + close;
        lemma_then(p, s, markdown::html_cells(p, s, before, open, close), x, t);
        assert(x.push(t) =~= all);
    }
}

proof fn lemma_tagged(
    p: Page,
    s: Sheet,
    row: Seq<Seq<SpanV>>,
    width: nat,
    open: Seq<char>,
    close: Seq<char>,
)
    requires
        !p.tight,
    ensures
        writes(
            s,
            markdown::html_cells(p, s, markdown::pad_cells_raw(row, width), open, close),
            tagged(row, width, open, close),
        ),
{
    let cells = markdown::pad_cells_raw(row, width);
    lemma_html_cells(p, s, cells, open, close);
    assert(Seq::new(cells.len(), |j: int| open + markdown::html_escape(cells[j]) + close)
        =~= tagged(row, width, open, close));
}

/// The rows of a table as HTML.
pub open spec fn html_lines(rows: Seq<Seq<Seq<SpanV>>>, width: nat) -> Seq<Seq<char>>
    decreases rows.len(),
{
    if rows.len() == 0 {
        seq![]
    } else {
        (html_lines(rows.drop_last(), width).push("<tr>"@) + tagged(
            rows.last(),
            width,
            "<td>"@,
            "</td>"@,
        )).push("</tr>"@)
    }
}

proof fn lemma_html_rows(p: Page, s: Sheet, rows: Seq<Seq<Seq<SpanV>>>, width: nat)
    requires
        !p.tight,
    ensures
        writes(s, markdown::html_rows(p, s, rows, width), html_lines(rows, width)),
    decreases rows.len(),
{
    if rows.len() == 0 {
        lemma_writes_nothing(s);
    } else {
        let before = rows.drop_last();
        lemma_html_rows(p, s, before, width);
        let a = markdown::html_rows(p, s, before, width);
        let x = html_lines(before, width);
        lemma_then(p, s, a, x, "<tr>"@);
        let b = markdown::line(p, a, "<tr>"@);
        let c = markdown::html_cells(
            p,
            b,
            markdown::pad_cells_raw(rows.last(), width),
            "<td>"@,
            "</td>"@,
        );
        let y = tagged(rows.last(), width, "<td>"@, "</td>"@);
        lemma_tagged(p, b, rows.last(), width, "<td>"@, "</td>"@);
        lemma_writes(s, b, c, x.push("<tr>"@), y);
        lemma_then(p, s, c, x.push("<tr>"@) + y, "</tr>"@);
    }
}

/// A table in HTML has a header row of header cells and a row of cells for each row.
pub proof fn html_tables_have_a_row_for_each_row(
    p: Page,
    s: Sheet,
    t: TableV,
    header: Seq<Seq<SpanV>>,
)
    requires
        !p.tight,
        t.header == Some(header),
        t.caption is None,
        t.width() > 0,
        t.rows.len() <= p.max_rows,
        p.opts.tables == TableStyle::Html,
    ensures
        writes(
            s,
            markdown::table(p, s, t),
            seq!["<table>"@, "<thead><tr>"@] + tagged(header, t.width(), "<th>"@, "</th>"@) + seq![
                "</tr></thead>"@,
                "<tbody>"@,
            ] + html_lines(t.rows, t.width()) + seq!["</tbody>"@, "</table>"@],
        ),
{
    let w = t.width();
    lemma_line(p, s, "<table>"@);
    let s1 = markdown::line(p, s, "<table>"@);
    lemma_then(p, s, s1, seq!["<table>"@], "<thead><tr>"@);
    let s2 = markdown::line(p, s1, "<thead><tr>"@);
    let x2 = seq!["<table>"@, "<thead><tr>"@];
    assert(seq!["<table>"@].push("<thead><tr>"@) =~= x2);
    lemma_tagged(p, s2, header, w, "<th>"@, "</th>"@);
    let s3 = markdown::html_cells(
        p,
        s2,
        markdown::pad_cells_raw(header, w),
        "<th>"@,
        "</th>"@,
    );
    let x3 = x2 + tagged(header, w, "<th>"@, "</th>"@);
    lemma_writes(s, s2, s3, x2, tagged(header, w, "<th>"@, "</th>"@));
    lemma_then(p, s, s3, x3, "</tr></thead>"@);
    let s4 = markdown::line(p, s3, "</tr></thead>"@);
    lemma_then(p, s, s4, x3.push("</tr></thead>"@), "<tbody>"@);
    let s5 = markdown::line(p, s4, "<tbody>"@);
    let x5 = x3 + seq!["</tr></thead>"@, "<tbody>"@];
    assert(x3.push("</tr></thead>"@).push("<tbody>"@) =~= x5);
    lemma_html_rows(p, s5, t.rows, w);
    let s6 = markdown::html_rows(p, s5, t.rows, w);
    let x6 = x5 + html_lines(t.rows, w);
    lemma_writes(s, s5, s6, x5, html_lines(t.rows, w));
    lemma_then(p, s, s6, x6, "</tbody>"@);
    let s7 = markdown::line(p, s6, "</tbody>"@);
    lemma_then(p, s, s7, x6.push("</tbody>"@), "</table>"@);
    assert(x6.push("</tbody>"@).push("</table>"@) =~= x6 + seq!["</tbody>"@, "</table>"@]);
}

/// A table that is too long is written as the table of its first rows, with a note of
/// how many are left out.
pub proof fn long_tables_are_cut_at_the_end(p: Page, s: Sheet, t: TableV)
    requires
        t.rows.len() > p.max_rows,
        t.width() > 0,
        t.width() == (TableV { rows: t.rows.take(p.max_rows as int), ..t }).width(),
    ensures
        ({
            let kept = TableV { rows: t.rows.take(p.max_rows as int), ..t };
            let a = markdown::table(p, s, kept);
            let b = markdown::table(p, s, t);
            let note = "_… "@ + chars::decimal((t.rows.len() - p.max_rows) as nat)
                + " further rows omitted_"@;
            &&& b.out == markdown::line(p, markdown::blank(p, a), note).out
            &&& b.truncated == markdown::line(p, markdown::blank(p, a), note).truncated
        }),
{
    let kept = TableV { rows: t.rows.take(p.max_rows as int), ..t };
    assert(kept.rows.take(p.max_rows as int) =~= kept.rows);
}

/// A picture is its alternative text in square brackets behind an exclamation mark, and
/// its address in parentheses; its caption stands below it where it has one beside its
/// alternative text. One without an address is named in brackets.
pub proof fn pictures_show_text_and_address(img: ImageV, alt: Seq<char>, address: Seq<char>)
    requires
        img.alt == Some(alt),
        chars::trim(address) == address,
        !address.contains(' '),
        !address.contains('('),
        !address.contains(')'),
    ensures
        img.source == ImageRefV::Url(address) || img.source == ImageRefV::Resource(address)
            ==> markdown::image(img) == seq!['!', '['] + markdown::escape_text(alt) + seq![']', '(']
            + address + seq![')'] + (match img.caption {
            Some(c) => seq!['\n', '\n', '*'] + markdown::escape_text(c) + seq!['*'],
            None => seq![],
        }),
        img.source is Absent ==> markdown::image(img) == "*[image: "@ + markdown::escape_text(alt)
            + "]*"@,
{
    reveal_strlit("![");
    reveal_strlit("](");
    reveal_strlit(")");
    reveal_strlit("\n\n*");
    reveal_strlit("*");
    assert("!["@ =~= seq!['!', '[']);
    assert("]("@ =~= seq![']', '(']);
    assert(")"@ =~= seq![')']);
    assert("\n\n*"@ =~= seq!['\n', '\n', '*']);
    assert("*"@ =~= seq!['*']);
    if img.source == ImageRefV::Url(address) || img.source == ImageRefV::Resource(address) {
        let body = seq!['!', '['] + markdown::escape_text(alt) + seq![']', '('] + address + seq![
            ')',
        ];
        match img.caption {
            Some(c) => {
                assert(body + seq!['\n', '\n', '*'] + markdown::escape_text(c) + seq!['*']
                    =~= body + (seq!['\n', '\n', '*'] + markdown::escape_text(c) + seq!['*']));
            },
            None => {
                assert(body + seq![] =~= body);
            },
        }
    }
}

/// Front matter gives the title, the author, when the document was made and changed,
/// and its language, each under its name, and then what else is known.
#[verifier::rlimit(60)]
#[verifier::spinoff_prover]
pub proof fn front_matter_gives_every_property(title: Option<Seq<char>>, m: MetadataV)
    ensures
        ({
            let f = markdown::front_pairs(title, m);
            &&& title is Some ==> ir::lookup(f, "title"@) == title
            &&& m.author is Some ==> ir::lookup(f, "author"@) == m.author
            &&& m.created is Some ==> ir::lookup(f, "created"@) == m.created
            &&& m.modified is Some ==> ir::lookup(f, "modified"@) == m.modified
            &&& m.language is Some ==> ir::lookup(f, "language"@) == m.language
            &&& f.len() >= m.extra.len() && f.skip(f.len() - m.extra.len()) == m.extra
            &&& f.len() == count(title) + count(m.author) + count(m.created) + count(m.modified)
                + count(m.language) + m.extra.len()
        }),
{
    reveal_strlit("title");
    reveal_strlit("author");
    reveal_strlit("created");
    reveal_strlit("modified");
    reveal_strlit("language");
    assert("title"@.len() == 5 && "author"@.len() == 6 && "created"@.len() == 7 && "modified"@.len()
        == 8 && "language"@.len() == 8);
    assert("modified"@[0] == 'm' && "language"@[0] == 'l');
    let f = markdown::front_pairs(title, m);
    let a = markdown::opt_pair("title"@, title);
    let b = markdown::opt_pair("author"@, m.author);
    let c = markdown::opt_pair("created"@, m.created);
    let d = markdown::opt_pair("modified"@, m.modified);
    let e = markdown::opt_pair("language"@, m.language);
    lemma_right(a, b, c, d, e, m.extra);
    let r3 = e + m.extra;
    let r2 = d + r3;
    let r1 = c + r2;
    let r0 = b + r1;
    lemma_lookup_pair("title"@, title, r0, "title"@);
    lemma_lookup_pair("title"@, title, r0, "author"@);
    lemma_lookup_pair("title"@, title, r0, "created"@);
    lemma_lookup_pair("title"@, title, r0, "modified"@);
    lemma_lookup_pair("title"@, title, r0, "language"@);
    lemma_lookup_pair("author"@, m.author, r1, "author"@);
    lemma_lookup_pair("author"@, m.author, r1, "created"@);
    lemma_lookup_pair("author"@, m.author, r1, "modified"@);
    lemma_lookup_pair("author"@, m.author, r1, "language"@);
    lemma_lookup_pair("created"@, m.created, r2, "created"@);
    lemma_lookup_pair("created"@, m.created, r2, "modified"@);
    lemma_lookup_pair("created"@, m.created, r2, "language"@);
    lemma_lookup_pair("modified"@, m.modified, r3, "modified"@);
    lemma_lookup_pair("modified"@, m.modified, r3, "language"@);
    lemma_lookup_pair("language"@, m.language, m.extra, "language"@);
}

proof fn lemma_right(
    a: Seq<(Seq<char>, Seq<char>)>,
    b: Seq<(Seq<char>, Seq<char>)>,
    c: Seq<(Seq<char>, Seq<char>)>,
    d: Seq<(Seq<char>, Seq<char>)>,
    e: Seq<(Seq<char>, Seq<char>)>,
    f: Seq<(Seq<char>, Seq<char>)>,
)
    ensures
        a + b + c + d + e + f == a + (b + (c + (d + (e + f)))),
        (a + b + c + d + e + f).skip((a + b + c + d + e).len() as int) == f,
{
    assert(a + b + c + d + e + f =~= a + (b + (c + (d + (e + f)))));
    assert((a + b + c + d + e + f).skip((a + b + c + d + e).len() as int) =~= f);
}

pub open spec fn count(o: Option<Seq<char>>) -> nat {
    if o is Some {
        1
    } else {
        0
    }
}

proof fn lemma_lookup_pair(
    key: Seq<char>,
    v: Option<Seq<char>>,
    rest: Seq<(Seq<char>, Seq<char>)>,
    other: Seq<char>,
)
    ensures
        v is Some && other == key ==> ir::lookup(markdown::opt_pair(key, v) + rest, other) == v,
        other != key ==> ir::lookup(markdown::opt_pair(key, v) + rest, other) == ir::lookup(
            rest,
            other,
        ),
{
    let s = markdown::opt_pair(key, v) + rest;
    match v {
        Some(x) => {
            assert(s[0] == (key, x));
            assert(s.skip(1) =~= rest);
        },
        None => {
            assert(s =~= rest);
        },
    }
}

/// The lines of front matter, one for each pair.
pub open spec fn pair_texts(pairs: Seq<(Seq<char>, Seq<char>)>, sep: Seq<char>) -> Seq<Seq<char>> {
    Seq::new(
        pairs.len(),
        |i: int| markdown::yaml_key(pairs[i].0) + sep + markdown::scalar(pairs[i].1),
    )
}

proof fn lemma_pair_lines(
    p: Page,
    s: Sheet,
    pairs: Seq<(Seq<char>, Seq<char>)>,
    sep: Seq<char>,
)
    requires
        !p.tight,
    ensures
        writes(s, markdown::pair_lines(p, s, pairs, sep), pair_texts(pairs, sep)),
    decreases pairs.len(),
{
    if pairs.len() == 0 {
        lemma_writes_nothing(s);
        assert(pair_texts(pairs, sep) =~= seq![]);
    } else {
        let before = pairs.drop_last();
        lemma_pair_lines(p, s, before, sep);
        let t = markdown::yaml_key(pairs.last().0) + sep + markdown::scalar(pairs.last().1);
        lemma_then(p, s, markdown::pair_lines(p, s, before, sep), pair_texts(before, sep), t);
        assert(pair_texts(before, sep).push(t) =~= pair_texts(pairs, sep));
    }
}

/// Front matter stands between two fences, a line for each pair in their order.
pub proof fn front_matter_stands_between_fences(
    p: Page,
    pairs: Seq<(Seq<char>, Seq<char>)>,
    fence: Seq<char>,
    sep: Seq<char>,
)
    requires
        !p.tight,
        pairs.len() > 0,
        !markdown::front_block(p, markdown::fresh(), pairs, fence, sep).truncated,
    ensures
        chars::starts_with(
            markdown::front_block(p, markdown::fresh(), pairs, fence, sep).out,
            stacked((seq![fence] + pair_texts(pairs, sep)).push(fence)),
        ),
{
    let s = markdown::fresh();
    lemma_line(p, s, fence);
    let a = markdown::line(p, s, fence);
    lemma_pair_lines(p, a, pairs, sep);
    let b = markdown::pair_lines(p, a, pairs, sep);
    lemma_writes(s, a, b, seq![fence], pair_texts(pairs, sep));
    let x = seq![fence] + pair_texts(pairs, sep);
    lemma_then(p, s, b, x, fence);
    let c = markdown::line(p, b, fence);
    let r = markdown::front_block(p, s, pairs, fence, sep).out;
    assert(!c.truncated);
    assert(s.out + stacked(x.push(fence)) =~= stacked(x.push(fence)));
    assert(r.take(c.out.len() as int) =~= c.out);
}

/// A quoted line: behind a bracket and a space, or the bracket alone where the line is
/// empty.
pub open spec fn quoted(l: Seq<char>) -> Seq<char> {
    if l.len() == 0 {
        seq!['>']
    } else {
        seq!['>', ' '] + l
    }
}

/// Every line of a quote is quoted, in its order.
pub proof fn quotes_mark_every_line(p: Page, s: Sheet, ls: Seq<Seq<char>>)
    requires
        !p.tight,
    ensures
        writes(
            s,
            markdown::quote_lines(p, s, ls),
            Seq::new(ls.len(), |i: int| quoted(ls[i])),
        ),
    decreases ls.len(),
{
    reveal_strlit(">");
    reveal_strlit("> ");
    assert(">"@ =~= seq!['>']);
    assert("> "@ =~= seq!['>', ' ']);
    let all = Seq::new(ls.len(), |i: int| quoted(ls[i]));
    if ls.len() == 0 {
        lemma_writes_nothing(s);
        assert(all =~= seq![]);
    } else {
        let before = ls.drop_last();
        quotes_mark_every_line(p, s, before);
        let x = Seq::new(before.len(), |i: int| quoted(before[i]));
        lemma_then(p, s, markdown::quote_lines(p, s, before), x, quoted(ls.last()));
        assert(x.push(quoted(ls.last())) =~= all);
    }
}

/// A line below an item's first: as far in as the item's marker is long, or nothing
/// where it is empty.
pub open spec fn hung(l: Seq<char>, width: nat) -> Seq<char> {
    if l.len() == 0 {
        seq![]
    } else {
        Seq::new(width, |i: int| ' ') + l
    }
}

proof fn lemma_spaces(n: nat)
    ensures
        chars::repeat(" "@, n) == Seq::new(n, |i: int| ' '),
    decreases n,
{
    reveal_strlit(" ");
    if n > 0 {
        lemma_spaces((n - 1) as nat);
    }
    assert(chars::repeat(" "@, n) =~= Seq::new(n, |i: int| ' '));
}

proof fn lemma_hanging(p: Page, s: Sheet, ls: Seq<Seq<char>>, width: nat)
    requires
        !p.tight,
    ensures
        writes(
            s,
            markdown::hanging_lines(p, s, ls, chars::repeat(" "@, width)),
            Seq::new(ls.len(), |i: int| hung(ls[i], width)),
        ),
    decreases ls.len(),
{
    reveal_strlit("\n");
    let all = Seq::new(ls.len(), |i: int| hung(ls[i], width));
    let pad = chars::repeat(" "@, width);
    if ls.len() == 0 {
        lemma_writes_nothing(s);
        assert(all =~= seq![]);
    } else {
        let before = ls.drop_last();
        lemma_hanging(p, s, before, width);
        lemma_spaces(width);
        let x = Seq::new(before.len(), |i: int| hung(before[i], width));
        let a = markdown::hanging_lines(p, s, before, pad);
        let r = markdown::hanging_lines(p, s, ls, pad);
        let t = hung(ls.last(), width);
        if ls.last().len() == 0 {
            lemma_stacked_one(t);
            assert("\n"@ =~= seq!['\n']);
            assert(t + seq!['\n'] =~= seq!['\n']);
            lemma_writes(s, a, r, x, seq![t]);
            assert(x + seq![t] =~= x.push(t));
        } else {
            lemma_then(p, s, a, x, t);
        }
        assert(x.push(t) =~= all);
    }
}

/// A list item is its marker and the first line of its text; the other lines hang
/// below that line.
pub proof fn items_hang_below_their_marker(
    p: Page,
    s: Sheet,
    marker: Seq<char>,
    body: Seq<char>,
)
    requires
        !p.tight,
        chars::lines(chars::trim_end(body)).len() > 0,
    ensures
        ({
            let ls = chars::lines(chars::trim_end(body));
            writes(
                s,
                markdown::item(p, s, marker, body),
                seq![marker + ls[0]] + Seq::new(
                    (ls.len() - 1) as nat,
                    |i: int| hung(ls[i + 1], chars::byte_len(marker)),
                ),
            )
        }),
{
    let ls = chars::lines(chars::trim_end(body));
    let n = chars::byte_len(marker);
    let a = markdown::line(p, s, marker + ls[0]);
    lemma_line(p, s, marker + ls[0]);
    let rest = ls.skip(1);
    lemma_hanging(p, a, rest, n);
    let x = Seq::new(rest.len(), |i: int| hung(rest[i], n));
    lemma_writes(s, a, markdown::item(p, s, marker, body), seq![marker + ls[0]], x);
    assert(x =~= Seq::new((ls.len() - 1) as nat, |i: int| hung(ls[i + 1], n)));
}

/// A bullet is a hyphen and a space, a number its place in the list, a dot and a space.
pub proof fn markers_count_from_one(i: nat)
    ensures
        markdown::list_marker(false, i) == seq!['-', ' '],
        markdown::list_marker(true, i) == chars::decimal(i + 1) + seq!['.', ' '],
{
    reveal_strlit("- ");
    reveal_strlit(". ");
    assert("- "@ =~= seq!['-', ' ']);
    assert(". "@ =~= seq!['.', ' ']);
}

} // verus!

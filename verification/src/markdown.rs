//! What the renderer writes: Markdown as a function of the document's value.

use vstd::prelude::*;
use crate::chars;
use crate::error::{WarningKind, WarningV};
use crate::ir;
use crate::ir::{BlockV, DocumentV, ImageRefV, ImageV, MetadataV, SpanV, TableV};
use crate::render::{FrontMatter, RenderOptions, TableStyle};

verus! {

/// `char::is_alphanumeric`, as a property of the character.
pub uninterp spec fn alphanumeric(c: char) -> bool;

/// What a rendering run works under: the options, the cap on the output in
/// bytes and the cap on the rows of a table. On a tight page no more than two
/// line feeds follow each other.
pub struct Page {
    pub opts: RenderOptions,
    pub max: nat,
    pub max_rows: nat,
    pub tight: bool,
}

/// The same page, for what is written as it is.
pub open spec fn loose(p: Page) -> Page {
    Page { tight: false, ..p }
}

/// How far a rendering run has got. What was written counts against the page's
/// cap before line feeds are left out.
#[verifier::ext_equal]
pub struct Sheet {
    pub out: Seq<char>,
    pub spent: nat,
    pub truncated: bool,
    pub warnings: Seq<WarningV>,
}

pub open spec fn fresh() -> Sheet {
    Sheet { out: seq![], spent: 0, truncated: false, warnings: seq![] }
}

/// Nothing more fits.
pub open spec fn full(p: Page, s: Sheet) -> bool {
    s.truncated || s.spent >= p.max
}

/// How many line feeds end a text that ended with `run` of them once `t` follows
/// it, counted up to two.
pub open spec fn run_after(run: nat, t: Seq<char>) -> nat
    decreases t.len(),
{
    if t.len() == 0 {
        run
    } else if t.last() != '\n' {
        0
    } else if run_after(run, t.drop_last()) == 0 {
        1
    } else {
        2
    }
}

/// What stays of `t` behind `run` line feeds: no third one in a row.
pub open spec fn tightened(run: nat, t: Seq<char>) -> Seq<char>
    decreases t.len(),
{
    if t.len() == 0 {
        seq![]
    } else if t.last() == '\n' && run_after(run, t.drop_last()) >= 2 {
        tightened(run, t.drop_last())
    } else {
        tightened(run, t.drop_last()).push(t.last())
    }
}

/// What the page takes of `t` behind `out`.
pub open spec fn taken(p: Page, out: Seq<char>, t: Seq<char>) -> Seq<char> {
    if p.tight {
        tightened(tail(out), t)
    } else {
        t
    }
}

/// Writes `t` whole, or stops the run where it does not fit.
pub open spec fn push(p: Page, s: Sheet, t: Seq<char>) -> Sheet {
    if s.truncated {
        s
    } else if s.spent + chars::byte_len(t) > p.max {
        Sheet { truncated: true, ..s }
    } else {
        Sheet { out: s.out + taken(p, s.out, t), spent: s.spent + chars::byte_len(t), ..s }
    }
}

pub open spec fn line(p: Page, s: Sheet, t: Seq<char>) -> Sheet {
    push(p, push(p, s, t), "\n"@)
}

/// How many line feeds end `s`, counted up to two.
pub open spec fn tail(s: Seq<char>) -> nat
    decreases s.len(),
{
    if s.len() == 0 || s.last() != '\n' {
        0
    } else if tail(s.drop_last()) == 0 {
        1
    } else {
        2
    }
}

/// Makes sure an empty line separates what follows.
pub open spec fn blank(p: Page, s: Sheet) -> Sheet {
    if tail(s.out) < 2 && s.out.len() > 0 {
        push(p, s, "\n"@)
    } else {
        s
    }
}

/// The sheet `u` that a block written on `s` leaves: where the block does not
/// fit, nothing of it stays behind.
pub open spec fn whole(s: Sheet, u: Sheet) -> Sheet {
    if u.truncated {
        Sheet { out: s.out, ..u }
    } else {
        u
    }
}

pub open spec fn all_digits_before(s: Seq<char>, i: int) -> bool {
    forall|k: int| 0 <= k < i ==> chars::is_digit(#[trigger] s[k])
}

/// The character at `i` begins or ends a word.
pub open spec fn at_word_boundary(s: Seq<char>, i: int) -> bool {
    ||| i == 0
    ||| !alphanumeric(s[i - 1])
    ||| i + 1 >= s.len()
    ||| !alphanumeric(s[i + 1])
}

/// The character needs a backslash wherever it stands.
pub open spec fn is_markup(c: char) -> bool {
    c == '\\' || c == '`' || c == '*' || c == '[' || c == ']' || c == '<' || c == '>' || c == '|'
}

/// The character at `i` would be read as markup.
pub open spec fn needs_escape(s: Seq<char>, i: int) -> bool {
    let c = s[i];
    ||| is_markup(c)
    ||| c == '_' && at_word_boundary(s, i)
    ||| (c == '#' || c == '+' || c == '-') && i == 0
    ||| c == '.' && i > 0 && all_digits_before(s, i)
}

/// What the character at `i` becomes.
pub open spec fn escape_at(s: Seq<char>, i: int, newline: Seq<char>) -> Seq<char> {
    if needs_escape(s, i) {
        seq!['\\', s[i]]
    } else if s[i] == '\r' {
        seq![]
    } else if s[i] == '\n' {
        newline
    } else {
        seq![s[i]]
    }
}

/// What the first `n` characters become.
pub open spec fn escape_to(s: Seq<char>, n: int, newline: Seq<char>) -> Seq<char>
    decreases n,
{
    if n <= 0 {
        seq![]
    } else {
        escape_to(s, n - 1, newline) + escape_at(s, n - 1, newline)
    }
}

/// Text with everything escaped that Markdown would read as markup.
pub open spec fn escape_text(s: Seq<char>) -> Seq<char> {
    escape_to(s, s.len() as int, " "@)
}

/// The same for a table cell, where a line feed becomes `<br>`.
pub open spec fn escape_cell_text(s: Seq<char>) -> Seq<char> {
    escape_to(s, s.len() as int, "<br>"@)
}

/// A cell that is already Markdown.
pub open spec fn escape_table_cell(s: Seq<char>) -> Seq<char> {
    let a = chars::replace(s, "|"@, "\\|"@);
    let b = chars::replace(a, "\r\n"@, "<br>"@);
    let c = chars::replace(b, "\n"@, "<br>"@);
    chars::replace(c, "\r"@, "<br>"@)
}

pub open spec fn escape_url(u: Seq<char>) -> Seq<char> {
    let t = chars::trim(u);
    if t.contains(' ') || t.contains('(') || t.contains(')') {
        "<"@ + chars::replace(chars::replace(t, "<"@, ""@), ">"@, ""@) + ">"@
    } else {
        t
    }
}

pub open spec fn html_escape(s: Seq<char>) -> Seq<char> {
    chars::replace(
        chars::replace(chars::replace(s, "&"@, "&amp;"@), "<"@, "&lt;"@),
        ">"@,
        "&gt;"@,
    )
}

/// How many backticks end `s`.
pub open spec fn backtick_tail(s: Seq<char>) -> nat
    decreases s.len(),
{
    if s.len() > 0 && s.last() == '`' {
        backtick_tail(s.drop_last()) + 1
    } else {
        0
    }
}

/// The longest run of backticks in `s`.
pub open spec fn longest_backtick_run(s: Seq<char>) -> nat
    decreases s.len(),
{
    if s.len() == 0 {
        0
    } else {
        let a = longest_backtick_run(s.drop_last());
        let b = backtick_tail(s);
        if b > a {
            b
        } else {
            a
        }
    }
}

/// The fence round a code block with this body.
pub open spec fn fence_for(body: Seq<char>) -> Seq<char> {
    let n = longest_backtick_run(body);
    chars::repeat(
        "`"@,
        if n > 2 {
            n + 1
        } else {
            3
        },
    )
}

/// An inline code span.
pub open spec fn code_span(t: Seq<char>) -> Seq<char> {
    let ticks = chars::repeat("`"@, longest_backtick_run(t) + 1);
    if t.len() > 0 && (t[0] == '`' || t.last() == '`') {
        ticks + " "@ + t + " "@ + ticks
    } else {
        ticks + t + ticks
    }
}

/// What follows `s` stands behind a backslash that disarms it.
pub open spec fn disarms(s: Seq<char>) -> bool
    decreases s.len(),
{
    s.len() > 0 && s.last() == '\\' && !disarms(s.drop_last())
}

/// Markdown that stands in a table cell: no pipe without a backslash, and no
/// line end.
pub open spec fn in_cell(s: Seq<char>) -> Seq<char>
    decreases s.len(),
{
    if s.len() == 0 {
        seq![]
    } else {
        let t = in_cell(s.drop_last());
        if s.last() == '|' && !disarms(t) {
            t + "\\|"@
        } else if s.last() == '\n' {
            t + "<br>"@
        } else if s.last() == '\r' {
            t
        } else {
            t.push(s.last())
        }
    }
}

/// `s` between two markers, where it says anything.
pub open spec fn wrapped(marker: Seq<char>, s: Seq<char>) -> Seq<char> {
    if chars::is_blank(s) {
        seq![]
    } else {
        marker + chars::trim(s) + marker
    }
}

/// Inline content; in a table cell nothing ends the cell or the line.
pub open spec fn inline_with(i: Seq<SpanV>, cell: bool) -> Seq<char>
    decreases i,
{
    if i.len() == 0 {
        seq![]
    } else {
        inline_with(i.drop_last(), cell) + span(i.last(), cell)
    }
}

pub open spec fn span(s: SpanV, cell: bool) -> Seq<char>
    decreases s,
{
    match s {
        SpanV::Text(t) => if cell {
            escape_cell_text(t)
        } else {
            escape_text(t)
        },
        SpanV::Emphasis(i) => wrapped("*"@, inline_with(i, cell)),
        SpanV::Strong(i) => wrapped("**"@, inline_with(i, cell)),
        SpanV::Code(t) => if cell {
            in_cell(code_span(t))
        } else {
            code_span(t)
        },
        SpanV::Link { text, href } => {
            let label = inline_with(text, cell);
            let target = "]("@ + escape_url(href) + ")"@;
            "["@ + (if chars::is_blank(label) {
                escape_text(href)
            } else {
                label
            }) + (if cell {
                in_cell(target)
            } else {
                target
            })
        },
        SpanV::LineBreak => if cell {
            "<br>"@
        } else {
            "  \n"@
        },
    }
}

pub open spec fn inline(i: Seq<SpanV>) -> Seq<char> {
    inline_with(i, false)
}

pub open spec fn inline_cell(i: Seq<SpanV>) -> Seq<char> {
    inline_with(i, true)
}

/// The alternative text of an image, or its caption.
pub open spec fn alt_text(img: ImageV) -> Seq<char> {
    match (img.alt, img.caption) {
        (Some(a), _) => a,
        (None, Some(c)) => c,
        (None, None) => ""@,
    }
}

pub open spec fn image(img: ImageV) -> Seq<char> {
    let alt = escape_text(alt_text(img));
    match img.source {
        ImageRefV::Url(u) => captioned(img, "!["@ + alt + "]("@ + escape_url(u) + ")"@),
        ImageRefV::Resource(u) => captioned(img, "!["@ + alt + "]("@ + escape_url(u) + ")"@),
        ImageRefV::Embedded(name) => "*[image: "@ + escape_text(name) + "]*"@,
        ImageRefV::Absent => "*[image: "@ + alt + "]*"@,
    }
}

/// An image followed by its caption, where it has one beside its alternative
/// text.
pub open spec fn captioned(img: ImageV, body: Seq<char>) -> Seq<char> {
    match (img.caption, img.alt) {
        (Some(c), Some(_)) => body + "\n\n*"@ + escape_text(c) + "*"@,
        _ => body,
    }
}

/// The key may stand unquoted in front matter.
pub open spec fn is_bare_key(k: Seq<char>) -> bool {
    &&& k.len() > 0
    &&& forall|i: int|
        0 <= i < k.len() ==> (chars::is_ascii_alnum(#[trigger] k[i]) || k[i] == '_' || k[i] == '-')
}

pub open spec fn quoted(s: Seq<char>) -> Seq<char> {
    "\""@ + chars::replace(chars::replace(s, "\\"@, "\\\\"@), "\""@, "\\\""@) + "\""@
}

pub open spec fn yaml_key(k: Seq<char>) -> Seq<char> {
    if is_bare_key(k) {
        k
    } else {
        quoted(k)
    }
}

/// A front-matter value: always quoted, always on one line.
pub open spec fn scalar(v: Seq<char>) -> Seq<char> {
    "\""@ + chars::replace(
        chars::replace(
            chars::replace(chars::replace(v, "\\"@, "\\\\"@), "\""@, "\\\""@),
            "\n"@,
            " "@,
        ),
        "\r"@,
        " "@,
    ) + "\""@
}

pub open spec fn opt_pair(key: Seq<char>, value: Option<Seq<char>>) -> Seq<(Seq<char>, Seq<char>)> {
    match value {
        Some(v) => seq![(key, v)],
        None => seq![],
    }
}

/// The pairs that front matter lists.
pub open spec fn front_pairs(title: Option<Seq<char>>, m: MetadataV) -> Seq<
    (Seq<char>, Seq<char>),
> {
    opt_pair("title"@, title) + opt_pair("author"@, m.author) + opt_pair("created"@, m.created)
        + opt_pair("modified"@, m.modified) + opt_pair("language"@, m.language) + m.extra
}

pub open spec fn pair_lines(
    p: Page,
    s: Sheet,
    pairs: Seq<(Seq<char>, Seq<char>)>,
    sep: Seq<char>,
) -> Sheet
    decreases pairs.len(),
{
    if pairs.len() == 0 {
        s
    } else {
        line(
            p,
            pair_lines(p, s, pairs.drop_last(), sep),
            yaml_key(pairs.last().0) + sep + scalar(pairs.last().1),
        )
    }
}

pub open spec fn front_block(
    p: Page,
    s: Sheet,
    pairs: Seq<(Seq<char>, Seq<char>)>,
    fence: Seq<char>,
    sep: Seq<char>,
) -> Sheet {
    if pairs.len() == 0 {
        s
    } else {
        blank(p, whole(s, line(p, pair_lines(p, line(p, s, fence), pairs, sep), fence)))
    }
}

pub open spec fn front_matter(p: Page, s: Sheet, d: DocumentV) -> Sheet {
    let pairs = front_pairs(d.title, d.metadata);
    match p.opts.front_matter {
        FrontMatter::Off => s,
        FrontMatter::Yaml => front_block(p, s, pairs, "---"@, ": "@),
        FrontMatter::Toml => front_block(p, s, pairs, "+++"@, " = "@),
    }
}

/// A heading's level, once every offset is added: always from one to six.
pub open spec fn heading_level(level: u8, offset: u8, extra: u8) -> nat {
    let n = level + offset + extra;
    if n < 1 {
        1
    } else if n > 6 {
        6
    } else {
        n as nat
    }
}

pub open spec fn sat2(n: u8) -> u8 {
    if n + 2 > 255 {
        255
    } else {
        (n + 2) as u8
    }
}

pub open spec fn quote_lines(p: Page, s: Sheet, ls: Seq<Seq<char>>) -> Sheet
    decreases ls.len(),
{
    if ls.len() == 0 {
        s
    } else {
        line(
            p,
            quote_lines(p, s, ls.drop_last()),
            if ls.last().len() == 0 {
                ">"@
            } else {
                "> "@ + ls.last()
            },
        )
    }
}

pub open spec fn hanging_lines(p: Page, s: Sheet, ls: Seq<Seq<char>>, pad: Seq<char>) -> Sheet
    decreases ls.len(),
{
    if ls.len() == 0 {
        s
    } else {
        let t = hanging_lines(p, s, ls.drop_last(), pad);
        if ls.last().len() == 0 {
            push(p, t, "\n"@)
        } else {
            line(p, t, pad + ls.last())
        }
    }
}

pub open spec fn list_marker(ordered: bool, i: nat) -> Seq<char> {
    if ordered {
        chars::decimal(i + 1) + ". "@
    } else {
        "- "@
    }
}

/// The block is written as it is, or holds one that is.
pub open spec fn is_verbatim(b: BlockV) -> bool
    decreases b, 0int,
{
    match b {
        BlockV::Code { .. } => true,
        BlockV::Raw { .. } => true,
        BlockV::RawHtml { .. } => true,
        BlockV::List { items, .. } => any_verbatim_item(items),
        BlockV::Quote(inner) => any_verbatim(inner),
        BlockV::Embedded { doc, .. } => any_verbatim(doc.blocks),
        _ => false,
    }
}

pub open spec fn any_verbatim(bs: Seq<BlockV>) -> bool
    decreases bs, 0int,
{
    bs.len() > 0 && (any_verbatim(bs.drop_last()) || is_verbatim(bs.last()))
}

pub open spec fn any_verbatim_item(items: Seq<Seq<BlockV>>) -> bool
    decreases items, 0int,
{
    items.len() > 0 && (any_verbatim_item(items.drop_last()) || any_verbatim(items.last()))
}

/// One list item: its first line after the marker, the others under it.
pub open spec fn item(p: Page, s: Sheet, marker: Seq<char>, body: Seq<char>) -> Sheet {
    let ls = chars::lines(chars::trim_end(body));
    if ls.len() == 0 {
        line(p, s, chars::trim_end(marker))
    } else {
        hanging_lines(
            p,
            line(p, s, marker + ls[0]),
            ls.skip(1),
            chars::repeat(" "@, chars::byte_len(marker)),
        )
    }
}

pub open spec fn list(p: Page, s: Sheet, ordered: bool, items: Seq<Seq<BlockV>>) -> Sheet
    decreases items, 0int,
{
    if items.len() == 0 {
        s
    } else {
        let f = fragment(p, items.last());
        item(
            if any_verbatim(items.last()) {
                loose(p)
            } else {
                p
            },
            joined(list(p, s, ordered, items.drop_last()), f),
            list_marker(ordered, (items.len() - 1) as nat),
            f.out,
        )
    }
}

/// A row's cells, padded to the table's width.
pub open spec fn pad_cells(cells: Seq<Seq<SpanV>>, width: nat) -> Seq<Seq<char>> {
    Seq::new(
        width,
        |i: int|
            if i < cells.len() {
                inline_cell(cells[i])
            } else {
                seq![]
            },
    )
}

/// The same without markup.
pub open spec fn pad_cells_raw(cells: Seq<Seq<SpanV>>, width: nat) -> Seq<Seq<char>> {
    Seq::new(
        width,
        |i: int|
            if i < cells.len() {
                ir::plain(cells[i])
            } else {
                seq![]
            },
    )
}

pub open spec fn pipe_row(cells: Seq<Seq<char>>) -> Seq<char> {
    "| "@ + chars::join(cells, " | "@) + " |"@
}

pub open spec fn pipe_rows(p: Page, s: Sheet, rows: Seq<Seq<Seq<SpanV>>>, width: nat) -> Sheet
    decreases rows.len(),
{
    if rows.len() == 0 {
        s
    } else {
        line(
            p,
            pipe_rows(p, s, rows.drop_last(), width),
            pipe_row(pad_cells(rows.last(), width)),
        )
    }
}

pub open spec fn html_cells(
    p: Page,
    s: Sheet,
    cells: Seq<Seq<char>>,
    open: Seq<char>,
    close: Seq<char>,
) -> Sheet
    decreases cells.len(),
{
    if cells.len() == 0 {
        s
    } else {
        line(
            p,
            html_cells(p, s, cells.drop_last(), open, close),
            open + html_escape(cells.last()) + close,
        )
    }
}

pub open spec fn html_rows(p: Page, s: Sheet, rows: Seq<Seq<Seq<SpanV>>>, width: nat) -> Sheet
    decreases rows.len(),
{
    if rows.len() == 0 {
        s
    } else {
        line(
            p,
            html_cells(
                p,
                line(p, html_rows(p, s, rows.drop_last(), width), "<tr>"@),
                pad_cells_raw(rows.last(), width),
                "<td>"@,
                "</td>"@,
            ),
            "</tr>"@,
        )
    }
}

pub open spec fn csv_cell(c: Seq<char>) -> Seq<char> {
    if c.contains(',') || c.contains('"') || c.contains('\n') {
        "\""@ + chars::replace(c, "\""@, "\"\""@) + "\""@
    } else {
        c
    }
}

pub open spec fn csv_row(cells: Seq<Seq<char>>) -> Seq<char> {
    chars::join(Seq::new(cells.len(), |i: int| csv_cell(cells[i])), ","@)
}

pub open spec fn csv_rows(p: Page, s: Sheet, rows: Seq<Seq<Seq<SpanV>>>, width: nat) -> Sheet
    decreases rows.len(),
{
    if rows.len() == 0 {
        s
    } else {
        line(
            p,
            csv_rows(p, s, rows.drop_last(), width),
            csv_row(pad_cells_raw(rows.last(), width)),
        )
    }
}

pub open spec fn dashes(width: nat) -> Seq<Seq<char>> {
    Seq::new(width, |i: int| "---"@)
}

pub open spec fn gfm_table(p: Page, s: Sheet, t: TableV, rows: Seq<Seq<Seq<SpanV>>>) -> Sheet {
    let w = t.width();
    let header = match t.header {
        Some(h) => pad_cells(h, w),
        None => Seq::new(w, |i: int| Seq::<char>::empty()),
    };
    pipe_rows(p, line(p, line(p, s, pipe_row(header)), pipe_row(dashes(w))), rows, w)
}

pub open spec fn html_table(p: Page, s: Sheet, t: TableV, rows: Seq<Seq<Seq<SpanV>>>) -> Sheet {
    let w = t.width();
    let a = line(p, s, "<table>"@);
    let b = match t.header {
        Some(h) => line(
            p,
            html_cells(p, line(p, a, "<thead><tr>"@), pad_cells_raw(h, w), "<th>"@, "</th>"@),
            "</tr></thead>"@,
        ),
        None => a,
    };
    line(p, line(p, html_rows(p, line(p, b, "<tbody>"@), rows, w), "</tbody>"@), "</table>"@)
}

pub open spec fn csv_table(p: Page, s: Sheet, t: TableV, rows: Seq<Seq<Seq<SpanV>>>) -> Sheet {
    let w = t.width();
    let a = line(p, s, "```csv"@);
    let b = match t.header {
        Some(h) => line(p, a, csv_row(pad_cells_raw(h, w))),
        None => a,
    };
    line(p, csv_rows(p, b, rows, w), "```"@)
}

pub open spec fn table_caption(p: Page, s: Sheet, t: TableV) -> Sheet {
    match t.caption {
        Some(c) => if chars::is_blank(c) {
            s
        } else {
            blank(p, line(p, s, "**"@ + escape_text(c) + "**"@))
        },
        None => s,
    }
}

pub open spec fn rows_warning(max_rows: nat, total: nat) -> WarningV {
    WarningV {
        kind: WarningKind::Truncated,
        message: "table truncated to "@ + chars::decimal(max_rows) + " of "@ + chars::decimal(total)
            + " rows (max_table_rows)"@,
    }
}

pub open spec fn table(p: Page, s: Sheet, t: TableV) -> Sheet {
    let a = table_caption(p, s, t);
    if t.width() == 0 {
        a
    } else {
        let cut = t.rows.len() > p.max_rows;
        let rows = if cut {
            t.rows.take(p.max_rows as int)
        } else {
            t.rows
        };
        let b = match p.opts.tables {
            TableStyle::Gfm => gfm_table(p, a, t, rows),
            TableStyle::Html => html_table(p, a, t, rows),
            TableStyle::Csv => csv_table(p, a, t, rows),
        };
        if cut {
            let c = Sheet {
                warnings: b.warnings.push(rows_warning(p.max_rows, t.rows.len())),
                ..b
            };
            line(
                p,
                blank(p, c),
                "_… "@ + chars::decimal((t.rows.len() - p.max_rows) as nat)
                    + " further rows omitted_"@,
            )
        } else {
            b
        }
    }
}

pub open spec fn dropped_html() -> WarningV {
    WarningV {
        kind: WarningKind::Degraded,
        message:
            "dropped an HTML fragment Markdown cannot express (preserve_unsupported_html is off)"@,
    }
}

/// The heading over an embedded document.
pub open spec fn member_heading(p: Page, name: Seq<char>) -> Seq<char> {
    chars::repeat("#"@, heading_level(2, p.opts.heading_offset, 0)) + " "@ + escape_text(name)
}

/// A block that is one paragraph of its own: a blank line, the text, a blank
/// line.
pub open spec fn spaced_line(p: Page, s: Sheet, t: Seq<char>) -> Sheet {
    blank(p, whole(s, line(p, blank(p, s), t)))
}

/// The same for text that is written as it is.
pub open spec fn verbatim_line(p: Page, s: Sheet, t: Seq<char>) -> Sheet {
    blank(p, whole(s, line(loose(p), blank(p, s), t)))
}

/// The lines of a code block.
pub open spec fn code(p: Page, s: Sheet, language: Option<Seq<char>>, text: Seq<char>) -> Sheet {
    let fence = fence_for(text);
    let tag = match language {
        Some(l) => l,
        None => ""@,
    };
    line(p, line(p, line(p, s, fence + tag), chars::trim_end_char(text, '\n')), fence)
}

/// The sheet once a fragment was rendered for it: the fragment's warnings are
/// the sheet's, and so is what was cut from it.
pub open spec fn joined(s: Sheet, f: Sheet) -> Sheet {
    Sheet { truncated: s.truncated || f.truncated, warnings: s.warnings + f.warnings, ..s }
}

pub open spec fn block(p: Page, s: Sheet, b: BlockV, extra: u8) -> Sheet
    decreases b, 0int,
{
    match b {
        BlockV::Heading { level, text } => spaced_line(
            p,
            s,
            chars::repeat("#"@, heading_level(level, p.opts.heading_offset, extra)) + " "@ + inline(
                text,
            ),
        ),
        BlockV::Paragraph(text) => if chars::is_blank(ir::plain(text)) {
            s
        } else {
            spaced_line(p, s, inline(text))
        },
        BlockV::List { ordered, items } => blank(
            p,
            whole(s, list(p, blank(p, s), ordered, items)),
        ),
        BlockV::Table(t) => blank(p, whole(s, table(p, blank(p, s), t))),
        BlockV::Code { language, text } => blank(
            p,
            whole(s, code(loose(p), blank(p, s), language, text)),
        ),
        BlockV::Quote(inner) => {
            let f = fragment(p, inner);
            blank(
                p,
                whole(s, quote_lines(p, joined(blank(p, s), f), chars::lines(f.out))),
            )
        },
        BlockV::Image(img) => spaced_line(p, s, image(img)),
        BlockV::Rule => spaced_line(p, s, "---"@),
        BlockV::Raw { markdown } => verbatim_line(p, s, chars::trim_end(markdown)),
        BlockV::RawHtml { html } => if p.opts.preserve_unsupported_html {
            verbatim_line(p, s, chars::trim_end(html))
        } else {
            Sheet { warnings: s.warnings.push(dropped_html()), ..s }
        },
        BlockV::Embedded { name, doc } => blank(
            p,
            blocks(p, spaced_line(p, s, member_heading(p, name)), doc.blocks, sat2(extra)),
        ),
    }
}

pub open spec fn blocks(p: Page, s: Sheet, bs: Seq<BlockV>, extra: u8) -> Sheet
    decreases bs, 0int,
{
    if bs.len() == 0 {
        s
    } else {
        let t = blocks(p, s, bs.drop_last(), extra);
        if full(p, t) {
            Sheet { truncated: true, ..t }
        } else {
            block(p, t, bs.last(), extra)
        }
    }
}

/// Blocks rendered on a sheet of their own, without white space at its ends.
pub open spec fn fragment(p: Page, bs: Seq<BlockV>) -> Sheet
    decreases bs, 1int,
{
    let s = blocks(loose(p), fresh(), bs, 0);
    Sheet { out: chars::trim(s.out), ..s }
}

pub open spec fn output_warning(max: nat) -> WarningV {
    WarningV {
        kind: WarningKind::Truncated,
        message: "output reached max_output_bytes ("@ + chars::decimal(max)
            + ") and was cut at a block boundary"@,
    }
}

/// The whole document on a page.
pub open spec fn body(p: Page, d: DocumentV) -> Sheet {
    blocks(p, front_matter(p, fresh(), d), d.blocks, 0)
}

pub open spec fn markdown(p: Page, d: DocumentV) -> Seq<char> {
    chars::trim_end(body(p, d).out) + "\n"@
}

/// The warnings of a sheet, and the one that it was cut.
pub open spec fn reported(p: Page, s: Sheet) -> Seq<WarningV> {
    if s.truncated {
        s.warnings.push(output_warning(p.max))
    } else {
        s.warnings
    }
}

pub open spec fn warnings(p: Page, d: DocumentV) -> Seq<WarningV> {
    reported(p, body(p, d))
}

} // verus!

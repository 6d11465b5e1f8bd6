//! What Office documents keep beside their paragraphs: styles, tables, properties
//! and relationships.

use vstd::prelude::*;
use crate::chars;
use crate::converters;
use crate::converters::ooxml;
use crate::converters::ooxml::WalkV;
use crate::converters::xml::NodeV;
use crate::fidelity;
use crate::fidelity::tables;
use crate::fidelity::word;
use crate::guarantees;
use crate::ir;
use crate::ir::{BlockV, DocumentV, SpanV};

verus! {

spec fn key_of(s: Seq<char>) -> Seq<char> {
    let none = Seq::<char>::empty();
    guarantees::swapped(guarantees::swapped(guarantees::swapped(s, ' ', none), '-', none), '_', none)
}

proof fn lemma_style_key(s: Seq<char>)
    ensures
        ooxml::style_key(s) == key_of(chars::lower(s)),
{
    let none = Seq::<char>::empty();
    reveal_strlit(" ");
    reveal_strlit("-");
    reveal_strlit("_");
    reveal_strlit("");
    assert(" "@ =~= seq![' ']);
    assert("-"@ =~= seq!['-']);
    assert("_"@ =~= seq!['_']);
    assert(""@ =~= none);
    let l = chars::lower(s);
    guarantees::lemma_replace_is_swapped(l, ' ', none);
    let a = guarantees::swapped(l, ' ', none);
    guarantees::lemma_replace_is_swapped(a, '-', none);
    let b = guarantees::swapped(a, '-', none);
    guarantees::lemma_replace_is_swapped(b, '_', none);
}

proof fn lemma_key_concat(a: Seq<char>, b: Seq<char>)
    ensures
        key_of(a + b) == key_of(a) + key_of(b),
{
    let none = Seq::<char>::empty();
    guarantees::lemma_swapped_concat(a, b, ' ', none);
    let a1 = guarantees::swapped(a, ' ', none);
    let b1 = guarantees::swapped(b, ' ', none);
    guarantees::lemma_swapped_concat(a1, b1, '-', none);
    guarantees::lemma_swapped_concat(
        guarantees::swapped(a1, '-', none),
        guarantees::swapped(b1, '-', none),
        '_',
        none,
    );
}

proof fn lemma_key_one(c: char)
    ensures
        key_of(seq![c]) == (if c == ' ' || c == '-' || c == '_' {
            Seq::<char>::empty()
        } else {
            seq![c]
        }),
{
    let none = Seq::<char>::empty();
    guarantees::lemma_swapped_one(c, ' ', none);
    guarantees::lemma_swapped_one(c, '-', none);
    guarantees::lemma_swapped_one(c, '_', none);
    assert(guarantees::swapped(none, '-', none) =~= none);
    assert(guarantees::swapped(none, '_', none) =~= none);
}

/// The text holds none of the characters that part the words of a style's name.
pub open spec fn is_unparted(s: Seq<char>) -> bool {
    !s.contains(' ') && !s.contains('-') && !s.contains('_')
}

proof fn lemma_unparted_key(s: Seq<char>)
    requires
        is_unparted(s),
    ensures
        key_of(s) == s,
{
    let none = Seq::<char>::empty();
    guarantees::lemma_swapped_without(s, ' ', none);
    guarantees::lemma_swapped_without(s, '-', none);
    guarantees::lemma_swapped_without(s, '_', none);
}

/// Spaces, hyphens and underscores in a style's name make no difference, wherever they
/// stand.
pub proof fn separators_in_styles_do_not_count(a: Seq<char>, c: char, b: Seq<char>)
    requires
        c == ' ' || c == '-' || c == '_',
    ensures
        ooxml::spec_heading_level(Some(a + seq![c] + b)) == ooxml::spec_heading_level(Some(a + b)),
        ooxml::spec_list_style(Some(a + seq![c] + b)) == ooxml::spec_list_style(Some(a + b)),
{
    let x = chars::lower(a);
    let y = chars::lower(b);
    assert(chars::lower(a + b) =~= x + y);
    assert(chars::lower(a + seq![c] + b) =~= x + seq![c] + y);
    lemma_style_key(a + b);
    lemma_style_key(a + seq![c] + b);
    lemma_key_concat(x, y);
    lemma_key_concat(x, seq![c]);
    lemma_key_concat(x + seq![c], y);
    lemma_key_one(c);
    assert(key_of(x) + seq![] + key_of(y) =~= key_of(x) + key_of(y));
}

/// The two texts are the same but for the case of ASCII letters.
pub open spec fn same_letters(a: Seq<char>, b: Seq<char>) -> bool {
    a.len() == b.len() && forall|i: int|
        0 <= i < a.len() ==> {
            ||| #[trigger] a[i] == b[i]
            ||| chars::is_ascii_upper(a[i]) && b[i] == (a[i] as u8 + 32) as u8 as char
        }
}

proof fn lemma_lower(a: Seq<char>, b: Seq<char>)
    requires
        same_letters(a, b),
        forall|i: int| 0 <= i < b.len() ==> !chars::is_ascii_upper(#[trigger] b[i]),
    ensures
        chars::lower(a) == b,
{
    assert forall|i: int| 0 <= i < a.len() implies chars::lower1(a[i]) == b[i] by {
        assert(!chars::is_ascii_upper(b[i]));
    }
    assert(chars::lower(a) =~= b);
}

proof fn lemma_digits_behind(name: Seq<char>, d: Seq<char>)
    requires
        chars::all_digits(d),
        name.len() > 0,
        is_unparted(name),
        !chars::is_digit(name.last()),
        forall|i: int| 0 <= i < name.len() ==> !chars::is_ascii_upper(#[trigger] name[i]),
    ensures
        is_unparted(name + d),
        ooxml::trim_digits(name + d) == name,
        forall|i: int| 0 <= i < (name + d).len() ==> !chars::is_ascii_upper(#[trigger] (name + d)[i]),
    decreases d.len(),
{
    let s = name + d;
    assert forall|c: char| c == ' ' || c == '-' || c == '_' implies !s.contains(c) by {
        if s.contains(c) {
            let i = s.index_of(c);
            if i < name.len() {
                assert(name[i] == c);
                assert(name.contains(c));
            } else {
                assert(chars::is_digit(d[i - name.len()]));
            }
        }
    }
    assert forall|i: int| 0 <= i < s.len() implies !chars::is_ascii_upper(#[trigger] s[i]) by {
        if i < name.len() {
            assert(s[i] == name[i]);
        } else {
            assert(chars::is_digit(d[i - name.len()]));
        }
    }
    if d.len() > 0 {
        let e = d.drop_last();
        assert forall|i: int| 0 <= i < e.len() implies chars::is_digit(#[trigger] e[i]) by {
            assert(e[i] == d[i]);
        }
        lemma_digits_behind(name, e);
        assert(s.drop_last() =~= name + e);
        assert(chars::is_digit(d[d.len() - 1]));
        assert(s.last() == d[d.len() - 1]);
    } else {
        assert(s =~= name);
    }
}

/// A style named for a heading and its level, in whatever case, is a heading of that
/// level from one to six, and none beyond.
pub proof fn heading_styles_name_their_level(style: Seq<char>, n: nat)
    requires
        same_letters(style, "heading"@ + chars::decimal(n)),
    ensures
        1 <= n <= 6 ==> ooxml::spec_heading_level(Some(style)) == Some(n as u8),
        n == 0 || n > 6 ==> ooxml::spec_heading_level(Some(style)) is None,
{
    reveal_strlit("heading");
    reveal_strlit("title");
    reveal_strlit("subtitle");
    let h = "heading"@;
    let d = chars::decimal(n);
    tables::lemma_decimal(n);
    assert(h.len() == 7 && h[6] == 'g' && h[0] == 'h');
    assert(is_unparted(h));
    lemma_digits_behind(h, d);
    lemma_lower(style, h + d);
    lemma_style_key(style);
    lemma_unparted_key(h + d);
    let k = ooxml::style_key(style);
    assert(k == h + d);
    assert(k[0] == 'h');
    assert("title"@[0] == 't');
    assert("subtitle"@[0] == 's');
    assert(k.take(7) =~= h);
    assert(k.skip(7) =~= d);
    assert(chars::is_digit(d[0]));
    assert(chars::strip_plus(d) == d);
}

/// A style named for a numbered list makes a numbered one, a style named for a bullet
/// list one that is not, whatever number or case the name has.
pub proof fn list_styles_name_their_kind(style: Seq<char>, d: Seq<char>)
    requires
        chars::all_digits(d),
    ensures
        same_letters(style, "listnumber"@ + d) ==> ooxml::spec_list_style(Some(style)) == Some(
            true,
        ),
        same_letters(style, "listbullet"@ + d) ==> ooxml::spec_list_style(Some(style)) == Some(
            false,
        ),
        same_letters(style, "listparagraph"@ + d) ==> ooxml::spec_list_style(Some(style)) == Some(
            false,
        ),
{
    reveal_strlit("listnumber");
    reveal_strlit("listnum");
    reveal_strlit("numberedlist");
    reveal_strlit("listbullet");
    reveal_strlit("listparagraph");
    assert("listnumber"@.len() == 10 && "listnumber"@[9] == 'r' && "listnumber"@[4] == 'n');
    assert("listnum"@.len() == 7);
    assert("numberedlist"@.len() == 12);
    assert("listbullet"@.len() == 10 && "listbullet"@[9] == 't' && "listbullet"@[4] == 'b');
    assert("listparagraph"@.len() == 13 && "listparagraph"@[12] == 'h');
    assert(is_unparted("listnumber"@));
    assert(is_unparted("listbullet"@));
    assert(is_unparted("listparagraph"@));
    lemma_list_key(style, "listnumber"@, d);
    lemma_list_key(style, "listbullet"@, d);
    lemma_list_key(style, "listparagraph"@, d);
}

proof fn lemma_list_key(style: Seq<char>, name: Seq<char>, d: Seq<char>)
    requires
        chars::all_digits(d),
        name.len() > 0,
        is_unparted(name),
        !chars::is_digit(name.last()),
        forall|i: int| 0 <= i < name.len() ==> !chars::is_ascii_upper(#[trigger] name[i]),
    ensures
        same_letters(style, name + d) ==> ooxml::trim_digits(ooxml::style_key(style)) == name,
{
    if same_letters(style, name + d) {
        lemma_digits_behind(name, d);
        lemma_lower(style, name + d);
        lemma_style_key(style);
        lemma_unparted_key(name + d);
    }
}

/// A paragraph with a heading's style becomes a heading of its level; what came before
/// it stays.
pub proof fn styled_paragraphs_become_headings(w: WalkV, style: Seq<char>, level: u8)
    requires
        w.style == Some(style),
        ooxml::spec_heading_level(Some(style)) == Some(level),
        !chars::is_blank(ir::plain(ooxml::spec_runs_to_inline(w.runs))),
    ensures
        ({
            let r = ooxml::spec_close_paragraph(w, 0);
            &&& r.blocks.len() == w.blocks.len() + 1
            &&& r.blocks.drop_last() == w.blocks
            &&& r.blocks.last() matches BlockV::Heading { level: l, text } && l == level
                && text == ooxml::spec_runs_to_inline(w.runs)
            &&& r.runs.len() == 0 && r.style is None && r.list_level is None
        }),
{
    let r = ooxml::spec_close_paragraph(w, 0);
    assert(r.blocks.drop_last() =~= w.blocks);
}

/// A run is as bold and as slanted as the marks since the last run ended say.
pub proof fn marks_hold_for_one_run(
    nodes: Seq<NodeV>,
    rels: Seq<(Seq<char>, Seq<char>)>,
    t: NodeV,
)
    requires
        t.name() == "t"@,
        t.own_text.len() > 0,
    ensures
        ({
            let runs = ooxml::walk(nodes.push(t), rels).runs;
            &&& runs.len() == ooxml::walk(nodes, rels).runs.len() + 1
            &&& runs.drop_last() == ooxml::walk(nodes, rels).runs
            &&& runs.last().text == t.own_text
            &&& runs.last().bold == marked(nodes, "b"@)
            &&& runs.last().italic == marked(nodes, "i"@)
        }),
{
    word::lemma_names();
    lemma_marks(nodes, rels);
    let more = nodes.push(t);
    assert(more.drop_last() =~= nodes);
    assert(more.last() == t);
    let w = ooxml::walk(nodes, rels);
    assert(ooxml::walk(more, rels) == ooxml::walk_step(w, t, rels));
    assert(ooxml::walk(more, rels).runs.drop_last() =~= w.runs);
}

/// The mark has been set since the last run ended.
pub open spec fn marked(nodes: Seq<NodeV>, mark: Seq<char>) -> bool {
    exists|k: int|
        0 <= k < nodes.len() && (#[trigger] nodes[k]).name() == mark && no_run_after(nodes, k)
}

/// No run ends behind the `k`-th element.
pub open spec fn no_run_after(nodes: Seq<NodeV>, k: int) -> bool {
    forall|j: int| k < j < nodes.len() ==> (#[trigger] nodes[j]).name() != "r"@
}

proof fn lemma_marked_push(nodes: Seq<NodeV>, n: NodeV, mark: Seq<char>)
    requires
        mark != "r"@,
    ensures
        n.name() == mark ==> marked(nodes.push(n), mark),
        n.name() == "r"@ ==> !marked(nodes.push(n), mark),
        n.name() != mark && n.name() != "r"@ ==> marked(nodes.push(n), mark) == marked(nodes, mark),
{
    let more = nodes.push(n);
    let last = nodes.len() as int;
    assert(more[last] == n);
    if n.name() == mark {
        assert(no_run_after(more, last));
    } else if n.name() == "r"@ {
        if marked(more, mark) {
            let k = choose|k: int|
                0 <= k < more.len() && (#[trigger] more[k]).name() == mark && no_run_after(more, k);
            assert(more[last].name() == "r"@);
            assert(k < last);
        }
    } else {
        if marked(more, mark) {
            let k = choose|k: int|
                0 <= k < more.len() && (#[trigger] more[k]).name() == mark && no_run_after(more, k);
            assert(k < last);
            assert(nodes[k] == more[k]);
            assert forall|j: int| k < j < nodes.len() implies (#[trigger] nodes[j]).name()
                != "r"@ by {
                assert(more[j] == nodes[j]);
            }
            assert(no_run_after(nodes, k));
        }
        if marked(nodes, mark) {
            let k = choose|k: int|
                0 <= k < nodes.len() && (#[trigger] nodes[k]).name() == mark && no_run_after(
                    nodes,
                    k,
                );
            assert(nodes[k] == more[k]);
            assert forall|j: int| k < j < more.len() implies (#[trigger] more[j]).name()
                != "r"@ by {
                if j < last {
                    assert(more[j] == nodes[j]);
                }
            }
            assert(no_run_after(more, k));
        }
    }
}

proof fn lemma_marks(nodes: Seq<NodeV>, rels: Seq<(Seq<char>, Seq<char>)>)
    ensures
        ooxml::walk(nodes, rels).bold == marked(nodes, "b"@),
        ooxml::walk(nodes, rels).italic == marked(nodes, "i"@),
    decreases nodes.len(),
{
    word::lemma_names();
    reveal_strlit("b");
    reveal_strlit("i");
    reveal_strlit("r");
    assert("b"@[0] == 'b' && "i"@[0] == 'i' && "r"@[0] == 'r');
    reveal_strlit("t");
    assert("t"@[0] == 't');
    reveal_strlit("pstyle");
    reveal_strlit("ilvl");
    reveal_strlit("numpr");
    assert("pstyle"@.len() == 6 && "ilvl"@.len() == 4 && "numpr"@.len() == 5 && "b"@.len() == 1
        && "i"@.len() == 1 && "r"@.len() == 1);
    if nodes.len() > 0 {
        let before = nodes.drop_last();
        let n = nodes.last();
        lemma_marks(before, rels);
        assert(before.push(n) =~= nodes);
        lemma_marked_push(before, n, "b"@);
        lemma_marked_push(before, n, "i"@);
        let w = ooxml::walk(before, rels);
        let r = ooxml::walk(nodes, rels);
        assert(r == ooxml::walk_step(w, n, rels));
        assert(n.name() == "b"@ ==> r.bold && r.italic == w.italic);
        assert(n.name() == "i"@ ==> r.italic && r.bold == w.bold);
        assert(n.name() == "r"@ ==> !r.bold && !r.italic);
        assert(n.name() != "b"@ && n.name() != "r"@ ==> r.bold == w.bold);
        assert(n.name() != "i"@ && n.name() != "r"@ ==> r.italic == w.italic);
    }
}

/// The element closes inside one table.
pub open spec fn in_table(n: NodeV, name: Seq<char>) -> bool {
    n.name() == name && ooxml::count_name(n.path, "tbl"@) == 1
}

/// The elements of a cell with one paragraph of one text.
pub struct CellNodes {
    pub text: NodeV,
    pub paragraph: NodeV,
    pub end: NodeV,
}

pub open spec fn is_cell(c: CellNodes) -> bool {
    &&& in_table(c.text, "t"@) && word::is_unmarked(c.text.own_text) && !chars::is_blank(
        c.text.own_text,
    )
    &&& in_table(c.paragraph, "p"@)
    &&& in_table(c.end, "tc"@)
}

/// The elements of a row.
pub struct RowNodes {
    pub cells: Seq<CellNodes>,
    pub end: NodeV,
}

pub open spec fn is_row(r: RowNodes) -> bool {
    &&& r.cells.len() > 0
    &&& forall|j: int| 0 <= j < r.cells.len() ==> is_cell(#[trigger] r.cells[j])
    &&& in_table(r.end, "tr"@)
}

pub open spec fn cells_nodes(cells: Seq<CellNodes>) -> Seq<NodeV>
    decreases cells.len(),
{
    if cells.len() == 0 {
        seq![]
    } else {
        let c = cells.last();
        cells_nodes(cells.drop_last()).push(c.text).push(c.paragraph).push(c.end)
    }
}

pub open spec fn rows_nodes(rows: Seq<RowNodes>) -> Seq<NodeV>
    decreases rows.len(),
{
    if rows.len() == 0 {
        seq![]
    } else {
        (rows_nodes(rows.drop_last()) + cells_nodes(rows.last().cells)).push(rows.last().end)
    }
}

/// The row shows the words of the cells, one by one.
pub open spec fn row_shows(row: Seq<Seq<SpanV>>, cells: Seq<CellNodes>) -> bool {
    row.len() == cells.len() && forall|j: int|
        0 <= j < row.len() ==> chars::words(ir::plain(#[trigger] row[j])) == chars::words(
            cells[j].text.own_text,
        )
}

pub open spec fn rows_show(rows: Seq<Seq<Seq<SpanV>>>, grid: Seq<RowNodes>) -> bool {
    rows.len() == grid.len() && forall|i: int|
        0 <= i < rows.len() ==> row_shows(#[trigger] rows[i], grid[i].cells)
}

/// Nothing is under way.
pub open spec fn is_at_rest(w: WalkV) -> bool {
    w.runs.len() == 0 && w.cell is None && (w.tables.len() == 0 || w.tables[0]
        == ooxml::empty_acc())
}

/// Between two cells of a table.
spec fn between_cells(
    w: WalkV,
    blocks: Seq<BlockV>,
    grid: Seq<RowNodes>,
    cells: Seq<CellNodes>,
) -> bool {
    &&& w.runs.len() == 0
    &&& w.cell is None
    &&& w.blocks == blocks
    &&& if w.tables.len() == 0 {
        grid.len() == 0 && cells.len() == 0
    } else {
        rows_show(w.tables[0].rows, grid) && row_shows(w.tables[0].row, cells)
    }
}

proof fn lemma_walk_push(nodes: Seq<NodeV>, n: NodeV, rels: Seq<(Seq<char>, Seq<char>)>)
    ensures
        ooxml::walk(nodes.push(n), rels) == ooxml::walk_step(ooxml::walk(nodes, rels), n, rels),
{
    assert(nodes.push(n).drop_last() =~= nodes);
    assert(nodes.push(n).last() == n);
}

#[verifier::rlimit(40)]
#[verifier::spinoff_prover]
proof fn lemma_cell(
    nodes: Seq<NodeV>,
    rels: Seq<(Seq<char>, Seq<char>)>,
    blocks: Seq<BlockV>,
    grid: Seq<RowNodes>,
    cells: Seq<CellNodes>,
    c: CellNodes,
)
    requires
        between_cells(ooxml::walk(nodes, rels), blocks, grid, cells),
        is_cell(c),
    ensures
        between_cells(
            ooxml::walk(nodes.push(c.text).push(c.paragraph).push(c.end), rels),
            blocks,
            grid,
            cells.push(c),
        ),
{
    word::lemma_names();
    let w0 = ooxml::walk(nodes, rels);
    lemma_walk_push(nodes, c.text, rels);
    lemma_walk_push(nodes.push(c.text), c.paragraph, rels);
    lemma_walk_push(nodes.push(c.text).push(c.paragraph), c.end, rels);
    let t = c.text.own_text;
    fidelity::lemma_squeeze_blank(t);
    converters::squeezing_is_idempotent(t);
    if t.len() == 0 {
        assert(chars::trim(t) =~= seq![]);
    }
    let w1 = ooxml::walk_step(w0, c.text, rels);
    assert(w1.runs.len() == 1 && w1.runs[0].text == t);
    assert(w1.runs.drop_last() =~= seq![]);
    assert(ooxml::concat_unlinked(w1.runs.drop_last()) =~= seq![]);
    reveal_strlit("\u{1}");
    if chars::starts_with(t, "\u{1}"@) {
        assert(t.take(1)[0] == '\u{1}');
        assert(t[0] == '\u{1}');
        assert(t.contains('\u{1}'));
    }
    assert(ooxml::unlinked(t) == t);
    assert(ooxml::concat_unlinked(w1.runs) =~= t);
    let q = converters::spec_squeeze(t);
    assert(ooxml::spec_runs_to_plain(w1.runs) == q);
    let w2 = ooxml::walk_step(w1, c.paragraph, rels);
    assert(w2.cell == Some(q));
    assert(w2.tables == w0.tables);
    let w3 = ooxml::walk_step(w2, c.end, rels);
    fidelity::lemma_plain_text(q);
    let cell = seq![SpanV::Text(q)];
    let row = if w0.tables.len() == 0 {
        Seq::<Seq<SpanV>>::empty()
    } else {
        w0.tables[0].row
    };
    assert(w3.tables[0].row == row.push(cell));
    let next = row.push(cell);
    assert forall|j: int| 0 <= j < next.len() implies chars::words(ir::plain(#[trigger] next[j]))
        == chars::words(cells.push(c)[j].text.own_text) by {
        if j < row.len() {
            assert(next[j] == row[j]);
        }
    }
}

proof fn lemma_cells(
    nodes: Seq<NodeV>,
    rels: Seq<(Seq<char>, Seq<char>)>,
    blocks: Seq<BlockV>,
    grid: Seq<RowNodes>,
    cells: Seq<CellNodes>,
)
    requires
        between_cells(ooxml::walk(nodes, rels), blocks, grid, seq![]),
        forall|j: int| 0 <= j < cells.len() ==> is_cell(#[trigger] cells[j]),
    ensures
        between_cells(ooxml::walk(nodes + cells_nodes(cells), rels), blocks, grid, cells),
    decreases cells.len(),
{
    if cells.len() == 0 {
        assert(nodes + cells_nodes(cells) =~= nodes);
        assert(cells =~= seq![]);
    } else {
        let before = cells.drop_last();
        let c = cells[cells.len() - 1];
        assert forall|j: int| 0 <= j < before.len() implies is_cell(#[trigger] before[j]) by {
            assert(before[j] == cells[j]);
        }
        lemma_cells(nodes, rels, blocks, grid, before);
        let m = nodes + cells_nodes(before);
        assert(is_cell(c));
        lemma_cell(m, rels, blocks, grid, before, c);
        assert(nodes + cells_nodes(cells) =~= m.push(c.text).push(c.paragraph).push(c.end));
        assert(before.push(c) =~= cells);
    }
}

#[verifier::rlimit(40)]
#[verifier::spinoff_prover]
proof fn lemma_rows(
    nodes: Seq<NodeV>,
    rels: Seq<(Seq<char>, Seq<char>)>,
    grid: Seq<RowNodes>,
)
    requires
        is_at_rest(ooxml::walk(nodes, rels)),
        forall|i: int| 0 <= i < grid.len() ==> is_row(#[trigger] grid[i]),
    ensures
        between_cells(
            ooxml::walk(nodes + rows_nodes(grid), rels),
            ooxml::walk(nodes, rels).blocks,
            grid,
            seq![],
        ),
    decreases grid.len(),
{
    let blocks = ooxml::walk(nodes, rels).blocks;
    if grid.len() == 0 {
        assert(nodes + rows_nodes(grid) =~= nodes);
    } else {
        let before = grid.drop_last();
        let r = grid[grid.len() - 1];
        assert(is_row(r));
        assert forall|i: int| 0 <= i < before.len() implies is_row(#[trigger] before[i]) by {
            assert(before[i] == grid[i]);
        }
        lemma_rows(nodes, rels, before);
        let m = nodes + rows_nodes(before);
        lemma_cells(m, rels, blocks, before, r.cells);
        let k = m + cells_nodes(r.cells);
        lemma_walk_push(k, r.end, rels);
        assert(nodes + rows_nodes(grid) =~= k.push(r.end));
        word::lemma_names();
        let w = ooxml::walk(k, rels);
        let next = ooxml::walk_step(w, r.end, rels);
        let rows = w.tables[0].rows;
        assert(next.tables[0].rows == rows.push(w.tables[0].row));
        assert forall|i: int| 0 <= i < rows.len() + 1 implies row_shows(
            #[trigger] rows.push(w.tables[0].row)[i],
            grid[i].cells,
        ) by {
            if i < rows.len() {
                assert(rows.push(w.tables[0].row)[i] == rows[i]);
                assert(before[i] == grid[i]);
            }
        }
        assert(row_shows(next.tables[0].row, seq![]));
    }
}

/// A table becomes one table block behind what came before it: a row for each row, a
/// cell for each cell, in their places and with their words, the first row as the
/// header.
pub proof fn tables_keep_their_cells(
    nodes: Seq<NodeV>,
    rels: Seq<(Seq<char>, Seq<char>)>,
    grid: Seq<RowNodes>,
    end: NodeV,
)
    requires
        is_at_rest(ooxml::walk(nodes, rels)),
        grid.len() > 0,
        forall|i: int| 0 <= i < grid.len() ==> is_row(#[trigger] grid[i]),
        in_table(end, "tbl"@),
    ensures
        ({
            let w = ooxml::walk((nodes + rows_nodes(grid)).push(end), rels);
            &&& is_at_rest(w)
            &&& w.blocks.len() == ooxml::walk(nodes, rels).blocks.len() + 1
            &&& w.blocks.drop_last() == ooxml::walk(nodes, rels).blocks
            &&& w.blocks.last() matches BlockV::Table(t) && t.caption is None && t.header is Some
                && rows_show(tables::all_rows(t), grid)
        }),
{
    lemma_rows(nodes, rels, grid);
    let m = nodes + rows_nodes(grid);
    lemma_walk_push(m, end, rels);
    word::lemma_names();
    let v = ooxml::walk(m, rels);
    let w = ooxml::walk_step(v, end, rels);
    reveal_strlit("tbl");
    reveal_strlit("hyperlink");
    reveal_strlit("pstyle");
    assert("tbl"@.len() == 3 && "hyperlink"@.len() == 9 && "pstyle"@.len() == 6);
    let rows = v.tables[0].rows;
    assert(w.blocks == v.blocks.push(ooxml::headed_table(rows)));
    assert(w.blocks.drop_last() =~= v.blocks);
    if let BlockV::Table(t) = w.blocks.last() {
        assert(tables::all_rows(t) =~= rows);
    }
}

/// The elements of a row of a slide's table.
pub struct SlideRow {
    pub cells: Seq<NodeV>,
    pub end: NodeV,
}

pub open spec fn is_slide_row(r: SlideRow) -> bool {
    &&& r.cells.len() > 0
    &&& forall|j: int| 0 <= j < r.cells.len() ==> (#[trigger] r.cells[j]).name() == "tc"@
    &&& r.end.name() == "tr"@
}

pub open spec fn slide_rows(rows: Seq<SlideRow>) -> Seq<NodeV>
    decreases rows.len(),
{
    if rows.len() == 0 {
        seq![]
    } else {
        (slide_rows(rows.drop_last()) + rows.last().cells).push(rows.last().end)
    }
}

pub open spec fn slide_row_shows(row: Seq<Seq<SpanV>>, cells: Seq<NodeV>) -> bool {
    row.len() == cells.len() && forall|j: int|
        0 <= j < row.len() ==> chars::words(ir::plain(#[trigger] row[j])) == chars::words(
            cells[j].text,
        )
}

pub open spec fn slide_rows_show(rows: Seq<Seq<Seq<SpanV>>>, grid: Seq<SlideRow>) -> bool {
    rows.len() == grid.len() && forall|i: int|
        0 <= i < rows.len() ==> slide_row_shows(#[trigger] rows[i], grid[i].cells)
}

proof fn lemma_slide_push(nodes: Seq<NodeV>, n: NodeV)
    ensures
        ooxml::slide_run(nodes.push(n)) == ooxml::slide_step(ooxml::slide_run(nodes), n),
{
    assert(nodes.push(n).drop_last() =~= nodes);
    assert(nodes.push(n).last() == n);
}

proof fn lemma_slide_cells(nodes: Seq<NodeV>, cells: Seq<NodeV>)
    requires
        ooxml::slide_run(nodes).table.row.len() == 0,
        forall|j: int| 0 <= j < cells.len() ==> (#[trigger] cells[j]).name() == "tc"@,
    ensures
        ({
            let a = ooxml::slide_run(nodes);
            let b = ooxml::slide_run(nodes + cells);
            &&& b.blocks == a.blocks
            &&& b.table.rows == a.table.rows
            &&& slide_row_shows(b.table.row, cells)
        }),
    decreases cells.len(),
{
    word::lemma_names();
    if cells.len() == 0 {
        assert(nodes + cells =~= nodes);
    } else {
        let before = cells.drop_last();
        let c = cells[cells.len() - 1];
        assert forall|j: int| 0 <= j < before.len() implies (#[trigger] before[j]).name()
            == "tc"@ by {
            assert(before[j] == cells[j]);
        }
        lemma_slide_cells(nodes, before);
        assert(nodes + cells =~= (nodes + before).push(c));
        lemma_slide_push(nodes + before, c);
        let row = ooxml::slide_run(nodes + before).table.row;
        let q = converters::spec_squeeze(c.text);
        converters::squeezing_is_idempotent(c.text);
        fidelity::lemma_plain_text(q);
        let next = row.push(seq![SpanV::Text(q)]);
        assert(ooxml::slide_run(nodes + cells).table.row == next);
        assert forall|j: int| 0 <= j < next.len() implies chars::words(
            ir::plain(#[trigger] next[j]),
        ) == chars::words(cells[j].text) by {
            if j < row.len() {
                assert(next[j] == row[j]);
                assert(cells[j] == before[j]);
            }
        }
    }
}

proof fn lemma_slide_rows(nodes: Seq<NodeV>, grid: Seq<SlideRow>)
    requires
        ooxml::slide_run(nodes).table == ooxml::empty_acc(),
        forall|i: int| 0 <= i < grid.len() ==> is_slide_row(#[trigger] grid[i]),
    ensures
        ({
            let b = ooxml::slide_run(nodes + slide_rows(grid));
            &&& b.blocks == ooxml::slide_run(nodes).blocks
            &&& slide_rows_show(b.table.rows, grid)
            &&& b.table.row.len() == 0
        }),
    decreases grid.len(),
{
    word::lemma_names();
    if grid.len() == 0 {
        assert(nodes + slide_rows(grid) =~= nodes);
    } else {
        let before = grid.drop_last();
        let r = grid[grid.len() - 1];
        assert(is_slide_row(r));
        assert forall|i: int| 0 <= i < before.len() implies is_slide_row(#[trigger] before[i]) by {
            assert(before[i] == grid[i]);
        }
        lemma_slide_rows(nodes, before);
        let m = nodes + slide_rows(before);
        lemma_slide_cells(m, r.cells);
        let k = m + r.cells;
        lemma_slide_push(k, r.end);
        assert(nodes + slide_rows(grid) =~= k.push(r.end));
        let a = ooxml::slide_run(k);
        let rows = a.table.rows;
        let next = rows.push(a.table.row);
        assert(ooxml::slide_run(k.push(r.end)).table.rows == next);
        assert forall|i: int| 0 <= i < next.len() implies slide_row_shows(
            #[trigger] next[i],
            grid[i].cells,
        ) by {
            if i < rows.len() {
                assert(next[i] == rows[i]);
                assert(before[i] == grid[i]);
            }
        }
    }
}

/// A slide's table becomes one table block behind what came before it: a row for each
/// row, a cell for each cell, in their places and with their words, the first row as
/// the header.
pub proof fn slide_tables_keep_their_cells(nodes: Seq<NodeV>, grid: Seq<SlideRow>, end: NodeV)
    requires
        ooxml::slide_run(nodes).table == ooxml::empty_acc(),
        grid.len() > 0,
        forall|i: int| 0 <= i < grid.len() ==> is_slide_row(#[trigger] grid[i]),
        end.name() == "tbl"@,
    ensures
        ({
            let s = ooxml::slide_run((nodes + slide_rows(grid)).push(end));
            &&& s.table == ooxml::empty_acc()
            &&& s.blocks.len() == ooxml::slide_run(nodes).blocks.len() + 1
            &&& s.blocks.drop_last() == ooxml::slide_run(nodes).blocks
            &&& s.blocks.last() matches BlockV::Table(t) && t.header is Some && slide_rows_show(
                tables::all_rows(t),
                grid,
            )
        }),
{
    word::lemma_names();
    lemma_slide_rows(nodes, grid);
    let m = nodes + slide_rows(grid);
    lemma_slide_push(m, end);
    let a = ooxml::slide_run(m);
    let s = ooxml::slide_step(a, end);
    assert(s.blocks.drop_last() =~= a.blocks);
    assert(s.table.rows =~= seq![]);
    assert(s.table.row =~= seq![]);
    if let BlockV::Table(t) = s.blocks.last() {
        assert(tables::all_rows(t) =~= a.table.rows);
    }
}

/// What the last element of this name that says anything says.
pub open spec fn last_said(nodes: Seq<NodeV>, name: Seq<char>) -> Option<Seq<char>>
    decreases nodes.len(),
{
    if nodes.len() == 0 {
        None
    } else if nodes.last().name() == name && !chars::is_blank(nodes.last().own_text) {
        Some(nodes.last().own_text)
    } else {
        last_said(nodes.drop_last(), name)
    }
}

/// The two say the same words, or neither says anything.
pub open spec fn alike(a: Option<Seq<char>>, b: Option<Seq<char>>) -> bool {
    match (a, b) {
        (Some(x), Some(y)) => chars::words(x) == chars::words(y),
        (None, None) => true,
        _ => false,
    }
}

proof fn lemma_core(d: DocumentV, nodes: Seq<NodeV>)
    requires
        d.metadata.language is None,
    ensures
        ({
            let c = ooxml::core_run(d.metadata, nodes);
            &&& alike(c.title, last_said(nodes, "title"@))
            &&& alike(c.creator, last_said(nodes, "creator"@))
            &&& alike(c.created, last_said(nodes, "created"@))
            &&& alike(c.modified, last_said(nodes, "modified"@))
            &&& alike(c.meta.language, last_said(nodes, "language"@))
        }),
    decreases nodes.len(),
{
    reveal_strlit("title");
    reveal_strlit("creator");
    reveal_strlit("created");
    reveal_strlit("modified");
    reveal_strlit("language");
    reveal_strlit("keywords");
    reveal_strlit("subject");
    reveal_strlit("category");
    assert("title"@.len() == 5 && "creator"@.len() == 7 && "created"@.len() == 7
        && "modified"@.len() == 8 && "language"@.len() == 8 && "keywords"@.len() == 8
        && "subject"@.len() == 7 && "category"@.len() == 8);
    assert("creator"@[5] == 'o' && "created"@[5] == 'e' && "modified"@[0] == 'm' && "language"@[0]
        == 'l');
    assert("keywords"@[0] == 'k' && "subject"@[0] == 's' && "category"@[0] == 'c' && "creator"@[0]
        == 'c' && "created"@[0] == 'c');
    if nodes.len() > 0 {
        lemma_core(d, nodes.drop_last());
        let n = nodes.last();
        fidelity::lemma_squeeze_blank(n.own_text);
        converters::squeezing_is_idempotent(n.own_text);
    }
}

/// The properties of an Office document are what the last elements named for them say:
/// its title, its author, when it was made and changed, and its language.
pub proof fn properties_are_read(d: DocumentV, nodes: Seq<NodeV>)
    requires
        d.metadata.language is None,
        d.title is None,
    ensures
        ({
            let r = ooxml::with_core(d, ooxml::core_run(d.metadata, nodes));
            &&& alike(r.title, last_said(nodes, "title"@))
            &&& alike(r.metadata.author, last_said(nodes, "creator"@))
            &&& alike(r.metadata.created, last_said(nodes, "created"@))
            &&& alike(r.metadata.modified, last_said(nodes, "modified"@))
            &&& alike(r.metadata.language, last_said(nodes, "language"@))
            &&& r.blocks == d.blocks
            &&& r.warnings == d.warnings
        }),
{
    lemma_core(d, nodes);
}

/// A keyword, subject or category is noted under its own name, behind what was noted
/// before.
pub proof fn further_properties_are_noted(d: DocumentV, nodes: Seq<NodeV>, n: NodeV)
    requires
        n.name() == "keywords"@ || n.name() == "subject"@ || n.name() == "category"@,
        !chars::is_blank(n.own_text),
    ensures
        ({
            let a = ooxml::with_core(d, ooxml::core_run(d.metadata, nodes)).metadata.extra;
            let b = ooxml::with_core(
                d,
                ooxml::core_run(d.metadata, nodes.push(n)),
            ).metadata.extra;
            &&& b.len() == a.len() + 1
            &&& b.drop_last() == a
            &&& b.last().0 == n.name()
            &&& chars::words(b.last().1) == chars::words(n.own_text)
        }),
{
    reveal_strlit("title");
    reveal_strlit("creator");
    reveal_strlit("created");
    reveal_strlit("modified");
    reveal_strlit("language");
    reveal_strlit("keywords");
    reveal_strlit("subject");
    reveal_strlit("category");
    assert("title"@.len() == 5 && "creator"@.len() == 7 && "created"@.len() == 7
        && "modified"@.len() == 8 && "language"@.len() == 8 && "keywords"@.len() == 8
        && "subject"@.len() == 7 && "category"@.len() == 8);
    assert("modified"@[0] == 'm' && "language"@[0] == 'l' && "keywords"@[0] == 'k' && "subject"@[0]
        == 's' && "category"@[0] == 'c' && "creator"@[0] == 'c' && "created"@[0] == 'c');
    let more = nodes.push(n);
    assert(more.drop_last() =~= nodes);
    assert(more.last() == n);
    fidelity::lemma_squeeze_blank(n.own_text);
    converters::squeezing_is_idempotent(n.own_text);
    let v = converters::spec_squeeze(n.own_text);
    fidelity::lemma_squeeze_blank(v);
    let a = ooxml::core_run(d.metadata, nodes).meta.extra;
    let b = ooxml::core_run(d.metadata, more).meta.extra;
    assert(b == a.push((n.name(), v)));
    assert(b.drop_last() =~= a);
}

/// Each relationship adds its identifier and its target, in the order of the part; no
/// other element adds anything.
pub proof fn relationships_are_read(nodes: Seq<NodeV>, n: NodeV, id: Seq<char>, target: Seq<char>)
    ensures
        n.name() == "relationship"@ && n.attr("id"@) == Some(id) && n.attr("target"@) == Some(
            target,
        ) ==> ooxml::rel_pairs(nodes.push(n)).len() == ooxml::rel_pairs(nodes).len() + 1
            && ooxml::rel_pairs(nodes.push(n)).drop_last() == ooxml::rel_pairs(nodes)
            && ooxml::rel_pairs(nodes.push(n)).last().0 == id && ooxml::rel_pairs(
            nodes.push(n),
        ).last().1 == target,
        n.name() != "relationship"@ ==> ooxml::rel_pairs(nodes.push(n)) == ooxml::rel_pairs(nodes),
{
    let more = nodes.push(n);
    assert(more.drop_last() =~= nodes);
    assert(more.last() == n);
    let a = ooxml::rel_pairs(nodes);
    assert(a.push((id, target)).drop_last() =~= a);
}

/// A document that states no title takes the text of its first heading.
pub proof fn first_headings_are_titles(
    d: DocumentV,
    before: Seq<BlockV>,
    level: u8,
    text: Seq<SpanV>,
    rest: Seq<BlockV>,
)
    requires
        d.title is None,
        forall|i: int| 0 <= i < before.len() ==> !(#[trigger] before[i] is Heading),
        d.blocks == before + seq![BlockV::Heading { level, text }] + rest,
    ensures
        ooxml::finish_docx(d).title == Some(ir::plain(text)),
        ooxml::finish_docx(d).blocks == d.blocks,
{
    lemma_first_heading(before, BlockV::Heading { level, text }, rest);
}

proof fn lemma_first_heading(before: Seq<BlockV>, h: BlockV, rest: Seq<BlockV>)
    requires
        h is Heading,
        forall|i: int| 0 <= i < before.len() ==> !(#[trigger] before[i] is Heading),
    ensures
        ooxml::first_heading_text(before + seq![h] + rest) == Some(
            ir::plain(h->Heading_text),
        ),
    decreases before.len(),
{
    let all = before + seq![h] + rest;
    if before.len() == 0 {
        assert(all[0] == h);
    } else {
        assert(all[0] == before[0]);
        assert(!(before[0] is Heading));
        let fewer = before.skip(1);
        assert forall|i: int| 0 <= i < fewer.len() implies !(#[trigger] fewer[i] is Heading) by {
            assert(fewer[i] == before[i + 1]);
        }
        lemma_first_heading(fewer, h, rest);
        assert(all.skip(1) =~= fewer + seq![h] + rest);
    }
}

/// A presentation that states no title takes the text of the first paragraph that says
/// anything.
pub proof fn first_paragraphs_are_titles(
    before: Seq<BlockV>,
    text: Seq<SpanV>,
    rest: Seq<BlockV>,
)
    requires
        forall|i: int|
            0 <= i < before.len() ==> ((#[trigger] before[i]) matches BlockV::Paragraph(t)
                ==> chars::is_blank(ir::plain(t))),
        !chars::is_blank(ir::plain(text)),
    ensures
        ooxml::first_paragraph_text(before + seq![BlockV::Paragraph(text)] + rest) == Some(
            ir::plain(text),
        ),
    decreases before.len(),
{
    let p = BlockV::Paragraph(text);
    let all = before + seq![p] + rest;
    if before.len() == 0 {
        assert(all[0] == p);
    } else {
        assert(all[0] == before[0]);
        let fewer = before.skip(1);
        assert forall|i: int| 0 <= i < fewer.len() implies ((#[trigger] fewer[i]) matches
            BlockV::Paragraph(t) ==> chars::is_blank(ir::plain(t))) by {
            assert(fewer[i] == before[i + 1]);
        }
        first_paragraphs_are_titles(fewer, text, rest);
        assert(all.skip(1) =~= fewer + seq![p] + rest);
    }
}

/// A slide part is known by the number in its name.
pub proof fn slides_are_named_by_number(k: nat)
    requires
        k <= u32::MAX,
    ensures
        ooxml::spec_slide_number("ppt/slides/slide"@ + chars::decimal(k) + ".xml"@) == Some(k),
{
    reveal_strlit("ppt/slides/slide");
    reveal_strlit(".xml");
    let p = "ppt/slides/slide"@;
    let x = ".xml"@;
    let d = chars::decimal(k);
    tables::lemma_decimal(k);
    let name = p + d + x;
    assert(name.take(p.len() as int) =~= p);
    let rest = name.skip(p.len() as int);
    assert(rest =~= d + x);
    assert(rest.skip(rest.len() - x.len()) =~= x);
    assert(rest.take(rest.len() - x.len()) =~= d);
    assert(chars::is_digit(d[0]));
    assert(chars::strip_plus(d) == d);
}

} // verus!

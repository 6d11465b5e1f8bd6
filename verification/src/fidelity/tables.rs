//! What spreadsheets, separated values and JSON keep.

use vstd::prelude::*;
use crate::chars;
use crate::converters;
use crate::converters::json;
use crate::converters::json::JsonV;
use crate::converters::sheet;
use crate::converters::sheet::{CellV, SheetV};
use crate::cx::CxV;
use crate::error::ErrorV;
use crate::fidelity;
use crate::ir;
use crate::ir::{BlockV, DocumentV, SpanV, TableV};

verus! {

/// The table's rows, its header first where it has one.
pub open spec fn all_rows(t: TableV) -> Seq<Seq<Seq<SpanV>>> {
    match t.header {
        Some(h) => seq![h] + t.rows,
        None => t.rows,
    }
}

/// The text says what the cell holds.
pub open spec fn says(t: Seq<char>, c: CellV) -> bool {
    match c {
        CellV::Empty => t.len() == 0,
        CellV::Text(s) => t == s,
        CellV::Iso(s) => t == s,
        CellV::Number(s) => t == s || (s == "-0"@ && t == "0"@),
        CellV::Int(n) => if n < 0 {
            t.len() > 1 && t[0] == '-' && chars::all_digits(t.skip(1)) && chars::value(t.skip(1))
                == -n
        } else {
            t.len() > 0 && chars::all_digits(t) && chars::value(t) == n
        },
        CellV::Bool(b) => t == (if b {
            "true"@
        } else {
            "false"@
        }),
        CellV::Hours(s) => chars::starts_with(t, s) && t.len() > s.len(),
        CellV::Fault(s) => t.len() == s.len() + 1 && t.skip(1) == s,
        CellV::DateTime { year, month, day, hour, minute, second } => {
            &&& year <= 9999 && month <= 99 && day <= 99 ==> {
                &&& t.len() >= 10
                &&& chars::all_digits(t.take(4)) && chars::value(t.take(4)) == year
                &&& chars::all_digits(t.subrange(5, 7)) && chars::value(t.subrange(5, 7)) == month
                &&& chars::all_digits(t.subrange(8, 10)) && chars::value(t.subrange(8, 10)) == day
            }
            &&& year <= 9999 && month <= 99 && day <= 99 && hour <= 99 && minute <= 99 && second
                <= 99 ==> if hour == 0 && minute == 0 && second == 0 {
                t.len() == 10
            } else {
                &&& t.len() == 19
                &&& chars::all_digits(t.subrange(11, 13)) && chars::value(t.subrange(11, 13))
                    == hour
                &&& chars::all_digits(t.subrange(14, 16)) && chars::value(t.subrange(14, 16))
                    == minute
                &&& chars::all_digits(t.subrange(17, 19)) && chars::value(t.subrange(17, 19))
                    == second
            }
        },
    }
}

pub proof fn lemma_decimal(n: nat)
    ensures
        chars::decimal(n).len() > 0,
        chars::all_digits(chars::decimal(n)),
        chars::value(chars::decimal(n)) == n,
        n <= 9 ==> chars::decimal(n).len() == 1,
        10 <= n <= 99 ==> chars::decimal(n).len() == 2,
        100 <= n <= 999 ==> chars::decimal(n).len() == 3,
        1000 <= n <= 9999 ==> chars::decimal(n).len() == 4,
    decreases n,
{
    if n < 10 {
        let s = seq![chars::digit(n)];
        assert(chars::decimal(n) == s);
        assert(s.drop_last() =~= seq![]);
        assert(chars::value(s.drop_last()) == 0);
        assert(s.last() == chars::digit(n));
        assert(chars::digit(n) as u32 == 48 + n);
    } else {
        let m = n / 10;
        lemma_decimal(m);
        let s = chars::decimal(m).push(chars::digit(n % 10));
        assert(chars::decimal(n) == s);
        assert(s.drop_last() =~= chars::decimal(m));
        assert(chars::digit(n % 10) as u32 == 48 + n % 10);
        assert forall|i: int| 0 <= i < s.len() implies chars::is_digit(#[trigger] s[i]) by {
            if i < s.len() - 1 {
                assert(s[i] == chars::decimal(m)[i]);
            }
        }
        assert(10 <= n <= 99 ==> m <= 9);
        assert(100 <= n <= 999 ==> 10 <= m <= 99);
        assert(1000 <= n <= 9999 ==> 100 <= m <= 999);
    }
}

proof fn lemma_zeros(k: nat, d: Seq<char>)
    requires
        chars::all_digits(d),
    ensures
        (chars::repeat("0"@, k) + d).len() == k + d.len(),
        chars::all_digits(chars::repeat("0"@, k) + d),
        chars::value(chars::repeat("0"@, k) + d) == chars::value(d),
    decreases k + d.len(),
{
    reveal_strlit("0");
    assert("0"@ =~= seq!['0']);
    let z = chars::repeat("0"@, k);
    if d.len() > 0 {
        let e = d.drop_last();
        assert forall|i: int| 0 <= i < e.len() implies chars::is_digit(#[trigger] e[i]) by {
            assert(e[i] == d[i]);
        }
        lemma_zeros(k, e);
        assert((z + d).drop_last() =~= z + e);
        assert forall|i: int| 0 <= i < (z + d).len() implies chars::is_digit(
            #[trigger] (z + d)[i],
        ) by {
            if i < (z + e).len() {
                assert((z + d)[i] == (z + e)[i]);
            } else {
                assert((z + d)[i] == d[d.len() - 1]);
            }
        }
    } else if k > 0 {
        let y = chars::repeat("0"@, (k - 1) as nat);
        assert(d =~= seq![]);
        lemma_zeros((k - 1) as nat, d);
        assert(y + d =~= y);
        assert(z + d =~= y.push('0'));
        assert(y.push('0').drop_last() =~= y);
        assert forall|i: int| 0 <= i < (z + d).len() implies chars::is_digit(
            #[trigger] (z + d)[i],
        ) by {
            if i < y.len() {
                assert((z + d)[i] == (y + d)[i]);
            }
        }
    } else {
        assert(z + d =~= d);
    }
}

proof fn lemma_padded(n: nat, width: nat)
    ensures
        chars::all_digits(sheet::padded(n, width)),
        chars::value(sheet::padded(n, width)) == n,
        width == 2 && n <= 99 ==> sheet::padded(n, width).len() == 2,
        width == 4 && n <= 9999 ==> sheet::padded(n, width).len() == 4,
{
    lemma_decimal(n);
    let d = chars::decimal(n);
    if d.len() < width {
        lemma_zeros((width - d.len()) as nat, d);
    }
}

#[verifier::rlimit(40)]
proof fn lemma_says(c: CellV)
    ensures
        says(sheet::spec_cell_text(c), c),
{
    let t = sheet::spec_cell_text(c);
    match c {
        CellV::Int(n) => {
            reveal_strlit("-");
            if n < 0 {
                lemma_decimal((0 - n) as nat);
                assert(t.skip(1) =~= chars::decimal((0 - n) as nat));
            } else {
                lemma_decimal(n as nat);
            }
        },
        CellV::Hours(s) => {
            reveal_strlit(" h");
            assert(t.take(s.len() as int) =~= s);
        },
        CellV::Fault(s) => {
            reveal_strlit("#");
            assert(t.skip(1) =~= s);
        },
        CellV::DateTime { year, month, day, hour, minute, second } => {
            reveal_strlit("-");
            reveal_strlit("T");
            reveal_strlit(":");
            let y = sheet::padded(year as nat, 4);
            let m = sheet::padded(month as nat, 2);
            let d = sheet::padded(day as nat, 2);
            let h = sheet::padded(hour as nat, 2);
            let n = sheet::padded(minute as nat, 2);
            let s = sheet::padded(second as nat, 2);
            lemma_padded(year as nat, 4);
            lemma_padded(month as nat, 2);
            lemma_padded(day as nat, 2);
            lemma_padded(hour as nat, 2);
            lemma_padded(minute as nat, 2);
            lemma_padded(second as nat, 2);
            if year <= 9999 && month <= 99 && day <= 99 {
                assert(t.take(4) =~= y);
                assert(t.subrange(5, 7) =~= m);
                assert(t.subrange(8, 10) =~= d);
                if hour <= 99 && minute <= 99 && second <= 99 && !(hour == 0 && minute == 0
                    && second == 0) {
                    assert(t.subrange(11, 13) =~= h);
                    assert(t.subrange(14, 16) =~= n);
                    assert(t.subrange(17, 19) =~= s);
                }
            }
        },
        _ => {},
    }
}

/// The row has a cell for each of the sheet's, saying what it holds.
pub open spec fn row_says(row: Seq<Seq<SpanV>>, cells: Seq<CellV>) -> bool {
    row.len() == cells.len() && forall|j: int|
        0 <= j < cells.len() ==> says(ir::plain(#[trigger] row[j]), cells[j])
}

/// Every cell of the row is blank.
pub open spec fn is_blank_row(row: Seq<Seq<SpanV>>) -> bool {
    forall|j: int| 0 <= j < row.len() ==> chars::is_blank(ir::plain(#[trigger] row[j]))
}

/// The cell may be shown as blank text.
pub open spec fn is_blank_cell(c: CellV) -> bool {
    exists|text: Seq<char>| #[trigger] says(text, c) && chars::is_blank(text)
}

/// Every cell of the sheet's row may be shown as blank text.
pub open spec fn are_blank_cells(cells: Seq<CellV>) -> bool {
    forall|j: int| 0 <= j < cells.len() ==> is_blank_cell(#[trigger] cells[j])
}

proof fn lemma_text_row(cells: Seq<CellV>)
    ensures
        row_says(sheet::text_row(cells), cells),
{
    let row = sheet::text_row(cells);
    assert forall|j: int| 0 <= j < cells.len() implies says(
        ir::plain(#[trigger] row[j]),
        cells[j],
    ) by {
        fidelity::lemma_plain_text(sheet::spec_cell_text(cells[j]));
        lemma_says(cells[j]);
    }
}

proof fn lemma_tail(rows: Seq<Seq<Seq<SpanV>>>)
    ensures
        ({
            let n = sheet::without_blank_tail(rows).len();
            &&& n <= rows.len()
            &&& sheet::without_blank_tail(rows) == rows.take(n as int)
            &&& forall|i: int| n <= i < rows.len() ==> is_blank_row(#[trigger] rows[i])
            &&& n > 0 ==> !is_blank_row(rows[n - 1])
        }),
    decreases rows.len(),
{
    let n = sheet::without_blank_tail(rows).len() as int;
    if rows.len() > 0 && sheet::blank_row(rows.last()) {
        let before = rows.drop_last();
        lemma_tail(before);
        assert(before.take(n) =~= rows.take(n));
        assert forall|i: int| n <= i < rows.len() implies is_blank_row(#[trigger] rows[i]) by {
            if i < before.len() {
                assert(rows[i] == before[i]);
            }
        }
        if n > 0 {
            assert(before[n - 1] == rows[n - 1]);
        }
    } else {
        assert(rows.take(rows.len() as int) =~= rows);
    }
}

/// A sheet's rows become the table's, its header first: the i-th row of the table
/// is the i-th row of the sheet, cell by cell. Of the rows within the cap only
/// blank ones at the end are left out, and the header is a row that is not blank.
pub open spec fn table_holds(t: TableV, cells: Seq<Seq<CellV>>, max_rows: u32) -> bool {
    let rows = all_rows(t);
    let cap = if cells.len() > max_rows {
        max_rows as int + 1
    } else {
        cells.len() as int
    };
    &&& 0 < rows.len() <= cap
    &&& forall|i: int| 0 <= i < rows.len() ==> row_says(#[trigger] rows[i], cells[i])
    &&& forall|i: int| rows.len() <= i < cap ==> are_blank_cells(#[trigger] cells[i])
    &&& t.header is Some ==> rows.len() > 1 && !is_blank_row(rows[0])
    &&& t.header is None ==> rows.len() == 1 || is_blank_row(rows[0])
    &&& !is_blank_row(rows.last())
    &&& t.caption is None
}

/// Nothing of a sheet is lost: where it shows a table, the table holds its rows;
/// where it shows none, its rows are blank.
pub proof fn sheets_keep_their_rows(
    d: DocumentV,
    s: SheetV,
    cells: Seq<Seq<CellV>>,
    max_rows: u32,
)
    ensures
        ({
            let r = sheet::with_cells(d, s, cells, max_rows);
            &&& r.blocks.len() == d.blocks.len() + 1
            &&& r.blocks.drop_last() == d.blocks
            &&& match r.blocks.last() {
                BlockV::Table(t) => table_holds(t, cells, max_rows),
                b => b is Paragraph && forall|i: int|
                    0 <= i < cells.len() && i <= max_rows ==> are_blank_cells(#[trigger] cells[i]),
            }
        }),
{
    let all = sheet::leading_rows(cells, max_rows);
    let rows = sheet::without_blank_tail(all);
    lemma_tail(all);
    assert forall|i: int| 0 <= i < all.len() implies row_says(#[trigger] all[i], cells[i]) by {
        lemma_text_row(cells[i]);
    }
    assert forall|i: int| rows.len() <= i < all.len() implies are_blank_cells(
        #[trigger] cells[i],
    ) by {
        assert(is_blank_row(all[i]));
        assert(row_says(all[i], cells[i]));
        assert forall|j: int| 0 <= j < cells[i].len() implies is_blank_cell(
            #[trigger] cells[i][j],
        ) by {
            let text = ir::plain(all[i][j]);
            assert(says(text, cells[i][j]) && chars::is_blank(text));
        }
    }
    let r = sheet::with_cells(d, s, cells, max_rows);
    assert(r.blocks.drop_last() =~= d.blocks);
    if rows.len() > 0 {
        let t = sheet::sheet_table(rows);
        assert(all_rows(t) =~= rows);
        assert forall|i: int| 0 <= i < rows.len() implies row_says(
            #[trigger] rows[i],
            cells[i],
        ) by {
            assert(rows[i] == all[i]);
        }
        assert(rows.last() == all[rows.len() - 1]);
    }
}

/// The names of the sheets that can be read.
pub open spec fn readable(sheets: Seq<SheetV>, i: int) -> Seq<Seq<char>>
    decreases sheets.len() - i,
{
    if i < 0 || i >= sheets.len() {
        seq![]
    } else if sheets[i].cells is Some {
        seq![sheets[i].name] + readable(sheets, i + 1)
    } else {
        readable(sheets, i + 1)
    }
}

pub(crate) proof fn lemma_titles_push(bs: Seq<BlockV>, b: BlockV)
    ensures
        b matches BlockV::Heading { text, .. } ==> fidelity::titles(bs.push(b))
            == fidelity::titles(bs).push(ir::plain(text)),
        !(b is Heading) ==> fidelity::titles(bs.push(b)) == fidelity::titles(bs),
{
    assert(bs.push(b).drop_last() =~= bs);
}

/// A workbook has one section for each sheet that can be read, under the sheet's
/// name and in the order of the workbook, and what was there before stays.
pub proof fn workbooks_keep_their_sheets(sheets: Seq<SheetV>, i: int, d: DocumentV, c: CxV)
    requires
        0 <= i,
    ensures
        sheet::sheets_from(sheets, i, d, c).0 matches Ok(r) ==> {
            &&& fidelity::titles(r.blocks) == fidelity::titles(d.blocks) + readable(sheets, i)
            &&& r.blocks.len() == d.blocks.len() + 2 * readable(sheets, i).len()
            &&& r.blocks.take(d.blocks.len() as int) == d.blocks
        },
    decreases sheets.len() - i,
{
    if i < sheets.len() {
        let s = sheets[i];
        match s.cells {
            None => {
                let w = crate::error::WarningV {
                    kind: crate::error::WarningKind::SkippedMember,
                    message: "sheet "@ + crate::text::quoted_debug(s.name)
                        + " could not be read"@,
                };
                workbooks_keep_their_sheets(sheets, i + 1, d.warned(w), c);
            },
            Some(cells) => {
                let heading = BlockV::Heading { level: 2, text: seq![SpanV::Text(s.name)] };
                let h = d.pushed(heading);
                lemma_titles_push(d.blocks, heading);
                fidelity::lemma_plain_text(s.name);
                let (e, x) = if cells.len() == 0 {
                    (h.pushed(sheet::empty_sheet()), c)
                } else {
                    sheets_keep_their_rows(h, s, cells, c.limits.max_table_rows);
                    (
                        sheet::with_cells(h, s, cells, c.limits.max_table_rows),
                        c.with_budget(c.budget().expand(sheet::cell_count(cells))),
                    )
                };
                assert(e.blocks =~= h.blocks.push(e.blocks.last()));
                lemma_titles_push(h.blocks, e.blocks.last());
                workbooks_keep_their_sheets(sheets, i + 1, e, x);
                if let Ok(r) = sheet::sheets_from(sheets, i, d, c).0 {
                    assert(fidelity::titles(d.blocks).push(s.name) + readable(sheets, i + 1)
                        =~= fidelity::titles(d.blocks) + readable(sheets, i));
                    assert(r.blocks.take(d.blocks.len() as int) =~= e.blocks.take(
                        d.blocks.len() as int,
                    )) by {
                        assert(r.blocks.take(e.blocks.len() as int) == e.blocks);
                        assert forall|k: int| 0 <= k < d.blocks.len() implies r.blocks[k]
                            == e.blocks[k] by {
                            assert(r.blocks.take(e.blocks.len() as int)[k] == e.blocks[k]);
                        }
                    }
                    assert(e.blocks.take(d.blocks.len() as int) =~= d.blocks);
                }
            },
        }
    } else {
        assert(d.blocks.take(d.blocks.len() as int) =~= d.blocks);
        assert(fidelity::titles(d.blocks) + readable(sheets, i) =~= fidelity::titles(d.blocks));
    }
}

/// Where a sheet can be read and has rows, its section is its name and then a table
/// that holds its rows, or a note that there are none.
pub proof fn sections_follow_their_names(sheets: Seq<SheetV>, i: int, d: DocumentV, c: CxV)
    requires
        0 <= i < sheets.len(),
        sheets[i].cells is Some,
    ensures
        sheet::sheets_from(sheets, i, d, c).0 matches Ok(r) ==> {
            let n = d.blocks.len() as int;
            let cells = sheets[i].cells->Some_0;
            &&& r.blocks.len() >= n + 2
            &&& r.blocks[n] matches BlockV::Heading { level, text } && level == 2 && ir::plain(text)
                == sheets[i].name
            &&& r.blocks[n + 1] matches BlockV::Table(t) ==> table_holds(
                t,
                cells,
                c.limits.max_table_rows,
            )
            &&& !(r.blocks[n + 1] is Table) ==> forall|a: int|
                0 <= a < cells.len() && a <= c.limits.max_table_rows ==> are_blank_cells(
                    #[trigger] cells[a],
                )
        },
{
    let s = sheets[i];
    let cells = s.cells->Some_0;
    let heading = BlockV::Heading { level: 2, text: seq![SpanV::Text(s.name)] };
    let h = d.pushed(heading);
    fidelity::lemma_plain_text(s.name);
    let (e, x) = if cells.len() == 0 {
        (h.pushed(sheet::empty_sheet()), c)
    } else {
        sheets_keep_their_rows(h, s, cells, c.limits.max_table_rows);
        (
            sheet::with_cells(h, s, cells, c.limits.max_table_rows),
            c.with_budget(c.budget().expand(sheet::cell_count(cells))),
        )
    };
    workbooks_keep_their_sheets(sheets, i + 1, e, x);
    if let Ok(r) = sheet::sheets_from(sheets, i, d, c).0 {
        let n = d.blocks.len() as int;
        assert(e.blocks.drop_last() =~= h.blocks);
        assert(r.blocks.take(e.blocks.len() as int) == e.blocks);
        assert(r.blocks[n] == e.blocks[n]) by {
            assert(r.blocks.take(e.blocks.len() as int)[n] == e.blocks[n]);
        }
        assert(r.blocks[n + 1] == e.blocks[n + 1]) by {
            assert(r.blocks.take(e.blocks.len() as int)[n + 1] == e.blocks[n + 1]);
        }
        assert(e.blocks[n] == e.blocks.drop_last()[n]);
    }
}

/// The text of a value in a cell.
pub open spec fn shows(t: Seq<char>, v: JsonV) -> bool {
    match v {
        JsonV::Str(s) => t == s,
        JsonV::Number(n) => t == n,
        JsonV::Bool(b) => t == (if b {
            "true"@
        } else {
            "false"@
        }),
        JsonV::Null => t.len() == 0,
        _ => false,
    }
}

/// The first pair with this name is the `k`-th.
pub open spec fn first_at(m: Seq<(Seq<char>, JsonV)>, name: Seq<char>, k: int) -> bool {
    &&& 0 <= k < m.len()
    &&& m[k].0 == name
    &&& forall|i: int| 0 <= i < k ==> (#[trigger] m[i]).0 != name
}

proof fn lemma_member(m: Seq<(Seq<char>, JsonV)>, name: Seq<char>)
    ensures
        json::member(m, name) matches Some(v) ==> exists|k: int|
            #[trigger] first_at(m, name, k) && m[k].1 == v,
        json::member(m, name) is None ==> forall|k: int|
            0 <= k < m.len() ==> (#[trigger] m[k]).0 != name,
    decreases m.len(),
{
    if m.len() > 0 {
        if m[0].0 == name {
            assert(first_at(m, name, 0));
        } else {
            let t = m.skip(1);
            lemma_member(t, name);
            if let Some(v) = json::member(t, name) {
                let k = choose|k: int| #[trigger] first_at(t, name, k) && t[k].1 == v;
                assert forall|i: int| 0 <= i < k + 1 implies (#[trigger] m[i]).0 != name by {
                    if i > 0 {
                        assert(m[i] == t[i - 1]);
                    }
                }
                assert(m[k + 1] == t[k]);
                assert(first_at(m, name, k + 1));
            } else {
                assert forall|k: int| 0 <= k < m.len() implies (#[trigger] m[k]).0 != name by {
                    if k > 0 {
                        assert(m[k] == t[k - 1]);
                    }
                }
            }
        }
    }
}

/// A name stands once.
pub open spec fn distinct(names: Seq<Seq<char>>) -> bool {
    forall|i: int, j: int| 0 <= i < j < names.len() ==> names[i] != names[j]
}

proof fn lemma_add_columns(cols: Seq<Seq<char>>, pairs: Seq<(Seq<char>, JsonV)>)
    requires
        distinct(cols),
    ensures
        json::add_columns(Some(cols), pairs) matches Some(c) ==> {
            &&& distinct(c)
            &&& c.len() >= cols.len()
            &&& c.take(cols.len() as int) == cols
            &&& forall|k: int|
                0 <= k < pairs.len() ==> c.contains((#[trigger] pairs[k]).0)
                    && pairs[k].1.is_scalar()
            &&& forall|j: int|
                cols.len() <= j < c.len() ==> exists|k: int|
                    0 <= k < pairs.len() && (#[trigger] pairs[k]).0 == #[trigger] c[j]
        },
    decreases pairs.len(),
{
    if pairs.len() == 0 {
        assert(cols.take(cols.len() as int) =~= cols);
    } else {
        let before = pairs.drop_last();
        lemma_add_columns(cols, before);
        if let Some(c) = json::add_columns(Some(cols), pairs) {
            let b = json::add_columns(Some(cols), before)->Some_0;
            let name = pairs.last().0;
            assert(c.take(cols.len() as int) =~= b.take(cols.len() as int));
            if !b.contains(name) {
                assert(c == b.push(name));
                assert(c[b.len() as int] == name);
                assert forall|i: int, j: int| 0 <= i < j < c.len() implies c[i] != c[j] by {
                    if j == b.len() {
                        assert(b.contains(b[i]));
                    }
                }
            }
            assert forall|k: int| 0 <= k < pairs.len() implies c.contains((#[trigger] pairs[k]).0)
                && pairs[k].1.is_scalar() by {
                if k < before.len() {
                    assert(before[k] == pairs[k]);
                    assert(b.contains(before[k].0));
                    let x = choose|x: int| 0 <= x < b.len() && b[x] == before[k].0;
                    assert(c[x] == b[x]);
                } else if !b.contains(name) {
                    assert(c[b.len() as int] == name);
                }
            }
            assert forall|j: int| cols.len() <= j < c.len() implies exists|k: int|
                0 <= k < pairs.len() && (#[trigger] pairs[k]).0 == #[trigger] c[j] by {
                if j < b.len() {
                    assert(c[j] == b[j]);
                    let k = choose|k: int|
                        0 <= k < before.len() && (#[trigger] before[k]).0 == b[j];
                    assert(pairs[k].0 == c[j]);
                } else {
                    assert(pairs[pairs.len() - 1].0 == c[j]);
                }
            }
        }
    }
}

proof fn lemma_add_columns_none(pairs: Seq<(Seq<char>, JsonV)>)
    ensures
        json::add_columns(None, pairs) is None,
    decreases pairs.len(),
{
    if pairs.len() > 0 {
        lemma_add_columns_none(pairs.drop_last());
    }
}

/// Every name of the object is among the columns, and every value is a scalar.
pub open spec fn has_columns(v: JsonV, c: Seq<Seq<char>>) -> bool {
    v is Object && forall|k: int|
        0 <= k < v->Object_0.len() ==> c.contains((#[trigger] v->Object_0[k]).0)
            && v->Object_0[k].1.is_scalar()
}

/// The columns of objects: every name that an object has, each once.
proof fn lemma_columns(items: Seq<JsonV>)
    ensures
        json::columns(items) matches Some(c) ==> {
            &&& distinct(c)
            &&& forall|i: int| 0 <= i < items.len() ==> has_columns(#[trigger] items[i], c)
        },
    decreases items.len(),
{
    if items.len() > 0 {
        let before = items.drop_last();
        lemma_columns(before);
        if let Some(c) = json::columns(items) {
            let m = items.last()->Object_0;
            if json::columns(before) is None {
                lemma_add_columns_none(m);
            }
            let b = json::columns(before)->Some_0;
            lemma_add_columns(b, m);
            assert forall|i: int| 0 <= i < items.len() implies has_columns(
                #[trigger] items[i],
                c,
            ) by {
                if i < before.len() {
                    assert(before[i] == items[i]);
                    assert(has_columns(before[i], b));
                    let v = items[i];
                    assert forall|k: int| 0 <= k < v->Object_0.len() implies c.contains(
                        (#[trigger] v->Object_0[k]).0,
                    ) && v->Object_0[k].1.is_scalar() by {
                        let n = v->Object_0[k].0;
                        assert(b.contains(n));
                        let x = choose|x: int| 0 <= x < b.len() && b[x] == n;
                        assert(c.take(b.len() as int)[x] == c[x]);
                    }
                } else {
                    assert(items[i] == items.last());
                }
            }
        }
    }
}

/// A table made of an array has a row for each object, as far as the cap goes, and
/// a column for each name that an object has. In row i the cell under a name shows
/// the value that the i-th object has there, and nothing where it has none.
pub proof fn arrays_keep_their_objects(items: Seq<JsonV>, max_rows: nat)
    ensures
        json::spec_value_to_table(JsonV::Array(items), max_rows) matches Some(t) ==> {
            let names = fidelity::row_texts(t.header->Some_0);
            &&& t.header is Some
            &&& t.caption is None
            &&& distinct(names)
            &&& t.rows.len() == if items.len() > max_rows + 1 {
                max_rows + 1
            } else {
                items.len()
            }
            &&& forall|i: int| 0 <= i < items.len() ==> has_columns(#[trigger] items[i], names)
            &&& forall|i: int, j: int|
                #![trigger t.rows[i][j]]
                0 <= i < t.rows.len() && 0 <= j < names.len() ==> {
                    let m = items[i]->Object_0;
                    let cell = ir::plain(t.rows[i][j]);
                    &&& t.rows[i].len() == names.len()
                    &&& forall|k: int| #[trigger] first_at(m, names[j], k) ==> shows(cell, m[k].1)
                    &&& (forall|k: int| 0 <= k < m.len() ==> (#[trigger] m[k]).0 != names[j])
                        ==> cell.len() == 0
                }
        },
{
    if let Some(t) = json::spec_value_to_table(JsonV::Array(items), max_rows) {
        lemma_columns(items);
        let cols = json::columns(items)->Some_0;
        let names = fidelity::row_texts(t.header->Some_0);
        assert(names =~= cols) by {
            assert forall|j: int| 0 <= j < cols.len() implies #[trigger] names[j] == cols[j] by {
                fidelity::lemma_plain_text(cols[j]);
            }
        }
        assert forall|i: int, j: int|
            #![trigger t.rows[i][j]]
            0 <= i < t.rows.len() && 0 <= j < names.len() implies {
            let m = items[i]->Object_0;
            let cell = ir::plain(t.rows[i][j]);
            &&& t.rows[i].len() == names.len()
            &&& forall|k: int| #[trigger] first_at(m, names[j], k) ==> shows(cell, m[k].1)
            &&& (forall|k: int| 0 <= k < m.len() ==> (#[trigger] m[k]).0 != names[j]) ==> cell.len()
                == 0
        } by {
            assert(has_columns(items[i], cols));
            let m = items[i]->Object_0;
            let cell = json::scalar_text(items[i].get(cols[j]));
            fidelity::lemma_plain_text(cell);
            lemma_member(m, names[j]);
            assert forall|k: int| #[trigger] first_at(m, names[j], k) implies shows(
                cell,
                m[k].1,
            ) by {
                let v = json::member(m, names[j]);
                assert(m[k].0 == names[j]);
                if let Some(x) = v {
                    let y = choose|y: int| #[trigger] first_at(m, names[j], y) && m[y].1 == x;
                    if y < k {
                        assert(m[y].0 == names[j]);
                    }
                    assert(y == k);
                }
                assert(items[i]->Object_0[k].1.is_scalar());
                assert(cols.contains(items[i]->Object_0[k].0));
            }
        }
    }
}

/// Where an array becomes a table, the document is that table; any other value is
/// shown whole, as code.
pub proof fn json_becomes_one_block(
    source: Seq<char>,
    value: Result<JsonV, ErrorV>,
    max_rows: nat,
)
    ensures
        json::json_document(source, value, max_rows) matches Ok(d) ==> value is Ok && d.blocks.len()
            == 1 && match d.blocks[0] {
            BlockV::Table(t) => json::spec_value_to_table(value->Ok_0, max_rows) == Some(t),
            BlockV::Code { language, text } => json::spec_value_to_table(value->Ok_0, max_rows)
                is None && (json::json_pretty(value->Ok_0) matches Some(p) ==> text == p) && (
            json::json_pretty(value->Ok_0) is None ==> text == source),
            _ => false,
        },
        value is Err ==> json::json_document(source, value, max_rows) is Err,
{
}

/// An array of flat objects that is short enough is a table.
pub proof fn flat_arrays_are_tables(items: Seq<JsonV>, max_rows: nat)
    requires
        0 < items.len() <= 2 * max_rows,
        forall|i: int| 0 <= i < items.len() ==> (#[trigger] items[i]) is Object,
        forall|i: int, k: int|
            0 <= i < items.len() && 0 <= k < items[i]->Object_0.len() ==> (
            #[trigger] items[i]->Object_0[k]).1.is_scalar(),
        items[0]->Object_0.len() > 0,
    ensures
        json::spec_value_to_table(JsonV::Array(items), max_rows) is Some,
{
    lemma_flat(items);
    lemma_columns(items);
    let c = json::columns(items)->Some_0;
    assert(has_columns(items[0], c));
    assert(c.contains(items[0]->Object_0[0].0));
}

proof fn lemma_flat(items: Seq<JsonV>)
    requires
        forall|i: int| 0 <= i < items.len() ==> (#[trigger] items[i]) is Object,
        forall|i: int, k: int|
            0 <= i < items.len() && 0 <= k < items[i]->Object_0.len() ==> (
            #[trigger] items[i]->Object_0[k]).1.is_scalar(),
    ensures
        json::columns(items) is Some,
    decreases items.len(),
{
    if items.len() > 0 {
        let before = items.drop_last();
        assert forall|i: int| 0 <= i < before.len() implies (#[trigger] before[i]) is Object by {
            assert(before[i] == items[i]);
        }
        assert forall|i: int, k: int|
            0 <= i < before.len() && 0 <= k < before[i]->Object_0.len() implies (
        #[trigger] before[i]->Object_0[k]).1.is_scalar() by {
            assert(items[i]->Object_0[k].1.is_scalar());
        }
        lemma_flat(before);
        assert(items[items.len() - 1] is Object);
        let m = items.last()->Object_0;
        assert forall|k: int| 0 <= k < m.len() implies (#[trigger] m[k]).1.is_scalar() by {
            assert(items[items.len() - 1]->Object_0[k].1.is_scalar());
        }
        lemma_flat_pairs(json::columns(before)->Some_0, m);
    }
}

proof fn lemma_flat_pairs(cols: Seq<Seq<char>>, m: Seq<(Seq<char>, JsonV)>)
    requires
        forall|k: int| 0 <= k < m.len() ==> (#[trigger] m[k]).1.is_scalar(),
    ensures
        json::add_columns(Some(cols), m) is Some,
    decreases m.len(),
{
    if m.len() > 0 {
        let before = m.drop_last();
        assert forall|k: int| 0 <= k < before.len() implies (#[trigger] before[k]).1.is_scalar() by {
            assert(before[k] == m[k]);
        }
        lemma_flat_pairs(cols, before);
        assert(m[m.len() - 1].1.is_scalar());
    }
}

/// The lines of a text that are not blank.
pub open spec fn filled(lines: Seq<Seq<char>>) -> Seq<Seq<char>>
    decreases lines.len(),
{
    if lines.len() == 0 {
        seq![]
    } else if chars::is_blank(lines.last()) {
        filled(lines.drop_last())
    } else {
        filled(lines.drop_last()).push(lines.last())
    }
}

/// Line by line, the k-th value is what the k-th line that is not blank parses to.
pub proof fn lines_keep_their_values(lines: Seq<Seq<char>>)
    ensures
        json::lines_values(lines) matches Ok(vs) ==> {
            &&& vs.len() == filled(lines).len()
            &&& forall|k: int|
                0 <= k < vs.len() ==> json::json_parsed(filled(lines)[k]) == Ok::<
                    JsonV,
                    Seq<char>,
                >(#[trigger] vs[k])
        },
        json::lines_values(lines) is Err ==> exists|k: int|
            0 <= k < filled(lines).len() && json::json_parsed(#[trigger] filled(lines)[k]) is Err,
    decreases lines.len(),
{
    if lines.len() > 0 {
        let before = lines.drop_last();
        lines_keep_their_values(before);
        if json::lines_values(before) is Err {
            let k = choose|k: int|
                0 <= k < filled(before).len() && json::json_parsed(#[trigger] filled(before)[k])
                    is Err;
            assert(filled(lines)[k] == filled(before)[k]);
        } else if !chars::is_blank(lines.last()) {
            let n = filled(before).len() as int;
            assert(filled(lines)[n] == lines.last());
            if let Ok(vs) = json::lines_values(lines) {
                let ws = json::lines_values(before)->Ok_0;
                assert forall|k: int| 0 <= k < vs.len() implies json::json_parsed(filled(lines)[k])
                    == Ok::<JsonV, Seq<char>>(#[trigger] vs[k]) by {
                    if k < n {
                        assert(vs[k] == ws[k]);
                        assert(filled(lines)[k] == filled(before)[k]);
                    }
                }
            }
        }
    }
}

/// A table of separated values holds its rows, the header first, cell by cell.
pub proof fn records_keep_their_cells(caption: Option<Seq<char>>, rows: Seq<Seq<Seq<char>>>)
    ensures
        ({
            let t = converters::csv::csv_table(caption, rows);
            let all = all_rows(t);
            &&& t.caption == caption
            &&& all.len() == rows.len()
            &&& forall|i: int|
                0 <= i < rows.len() ==> (#[trigger] all[i]).len() == rows[i].len() && forall|j: int|
                    0 <= j < rows[i].len() ==> ir::plain(#[trigger] all[i][j]) == rows[i][j]
            &&& rows.len() == 1 ==> t.header is Some
            &&& rows.len() > 1 && t.header is Some ==> forall|j: int|
                0 <= j < rows[0].len() ==> !converters::csv::is_numeric(#[trigger] rows[0][j])
            &&& rows.len() > 1 && t.header is None ==> exists|j: int|
                0 <= j < rows[0].len() && converters::csv::is_numeric(#[trigger] rows[0][j])
        }),
{
    let t = converters::csv::csv_table(caption, rows);
    let all = all_rows(t);
    assert(all =~= converters::csv::text_rows(rows));
    assert forall|i: int| 0 <= i < rows.len() implies (#[trigger] all[i]).len() == rows[i].len()
        && forall|j: int|
        0 <= j < rows[i].len() ==> ir::plain(#[trigger] all[i][j]) == rows[i][j] by {
        assert forall|j: int| 0 <= j < rows[i].len() implies ir::plain(#[trigger] all[i][j])
            == rows[i][j] by {
            fidelity::lemma_plain_text(rows[i][j]);
        }
    }
}

} // verus!

//! Spreadsheets.

use vstd::prelude::*;
use crate::chars;
use crate::converters::extract::{Extracted, ExtractedV, Extractor};
use crate::cx;
use crate::cx::{ConvertCx, CxV};
use crate::detect;
use crate::error::{ConvertError, ErrorV, Warning, WarningKind, WarningV};
use crate::ir;
use crate::ir::{Block, BlockV, Document, DocumentV, Inline, SpanV, Table, TableV};
use crate::registry;
use crate::registry::{Converter, PRIORITY_SPECIFIC};
use crate::stream_info::{Probe, ProbeV, StreamInfo, StreamInfoV};
use crate::text;

verus! {

/// A cell's value, as plain data.
#[derive(Debug)]
pub enum Cell {
    Empty,
    Text(String),
    /// A number in its shortest decimal form.
    Number(String),
    Int(i64),
    Bool(bool),
    /// A length of time, as its hours to four places.
    Hours(String),
    DateTime { year: u16, month: u8, day: u8, hour: u8, minute: u8, second: u8 },
    /// A date or a length of time that the file holds as text.
    Iso(String),
    /// The name of a calculation error.
    Fault(String),
}

pub enum CellV {
    Empty,
    Text(Seq<char>),
    Number(Seq<char>),
    Int(i64),
    Bool(bool),
    Hours(Seq<char>),
    DateTime { year: u16, month: u8, day: u8, hour: u8, minute: u8, second: u8 },
    Iso(Seq<char>),
    Fault(Seq<char>),
}

impl View for Cell {
    type V = CellV;

    open spec fn view(&self) -> CellV {
        match *self {
            Cell::Empty => CellV::Empty,
            Cell::Text(s) => CellV::Text(s@),
            Cell::Number(s) => CellV::Number(s@),
            Cell::Int(n) => CellV::Int(n),
            Cell::Bool(b) => CellV::Bool(b),
            Cell::Hours(s) => CellV::Hours(s@),
            Cell::DateTime { year, month, day, hour, minute, second } => CellV::DateTime {
                year,
                month,
                day,
                hour,
                minute,
                second,
            },
            Cell::Iso(s) => CellV::Iso(s@),
            Cell::Fault(s) => CellV::Fault(s@),
        }
    }
}

pub open spec fn row_view(r: Seq<Cell>) -> Seq<CellV> {
    Seq::new(r.len(), |i: int| r[i]@)
}

pub open spec fn grid_view(g: Seq<Vec<Cell>>) -> Seq<Seq<CellV>> {
    Seq::new(g.len(), |i: int| row_view(g[i]@))
}

/// A sheet: its name and its used cells, row by row; no cells at all where the
/// sheet could not be read.
#[derive(Debug)]
pub struct Sheet {
    pub name: String,
    pub cells: Option<Vec<Vec<Cell>>>,
}

pub struct SheetV {
    pub name: Seq<char>,
    pub cells: Option<Seq<Seq<CellV>>>,
}

impl View for Sheet {
    type V = SheetV;

    open spec fn view(&self) -> SheetV {
        SheetV {
            name: self.name@,
            cells: match self.cells {
                Some(g) => Some(grid_view(g@)),
                None => None,
            },
        }
    }
}

pub open spec fn sheets_view(s: Seq<Sheet>) -> Seq<SheetV> {
    Seq::new(s.len(), |i: int| s[i]@)
}

/// Spreadsheets; the host reads the sheets.
pub struct SpreadsheetConverter<X>(pub X);

pub open spec fn spreadsheet_takes(probe: ProbeV, info: StreamInfoV) -> bool {
    (info.is_ext("xlsx"@) || info.is_ext("xlsm"@) || info.is_ext("xlsb"@) || info.is_ext("xls"@)
        || info.is_ext("ods"@) || info.is_mime("application/vnd.ms-excel"@) || (match info.mimetype {
        Some(m) => chars::contains(m, "spreadsheet"@),
        None => false,
    })) && (probe.starts_with(detect::zip_magic()) || probe.starts_with(detect::ole_magic()))
}

/// What an error on opening a workbook means.
pub open spec fn open_error(message: Seq<char>) -> ErrorV {
    let lower = chars::lower(message);
    if chars::contains(lower, "password"@) || chars::contains(lower, "encrypt"@) {
        ErrorV::Encrypted { format: "spreadsheet"@ }
    } else {
        ErrorV::Malformed { format: "spreadsheet"@, message }
    }
}

pub open spec fn signed(n: int) -> Seq<char> {
    if n < 0 {
        "-"@ + chars::decimal((0 - n) as nat)
    } else {
        chars::decimal(n as nat)
    }
}

/// A number with leading zeros up to a width.
pub open spec fn padded(n: nat, width: nat) -> Seq<char> {
    let d = chars::decimal(n);
    if d.len() < width {
        chars::repeat("0"@, (width - d.len()) as nat) + d
    } else {
        d
    }
}

pub open spec fn date_text(year: u16, month: u8, day: u8) -> Seq<char> {
    padded(year as nat, 4) + "-"@ + padded(month as nat, 2) + "-"@ + padded(day as nat, 2)
}

pub open spec fn time_text(hour: u8, minute: u8, second: u8) -> Seq<char> {
    padded(hour as nat, 2) + ":"@ + padded(minute as nat, 2) + ":"@ + padded(second as nat, 2)
}

/// A cell as text. Negative zero is zero, midnight is left out of a date.
pub open spec fn spec_cell_text(c: CellV) -> Seq<char> {
    match c {
        CellV::Empty => seq![],
        CellV::Text(s) => s,
        CellV::Number(s) => if s == "-0"@ {
            "0"@
        } else {
            s
        },
        CellV::Int(n) => signed(n as int),
        CellV::Bool(b) => if b {
            "true"@
        } else {
            "false"@
        },
        CellV::Hours(s) => s + " h"@,
        CellV::DateTime { year, month, day, hour, minute, second } => if hour == 0 && minute == 0
            && second == 0 {
            date_text(year, month, day)
        } else {
            date_text(year, month, day) + "T"@ + time_text(hour, minute, second)
        },
        CellV::Iso(s) => s,
        CellV::Fault(s) => "#"@ + s,
    }
}

pub open spec fn text_row(row: Seq<CellV>) -> Seq<Seq<SpanV>> {
    Seq::new(row.len(), |i: int| seq![SpanV::Text(spec_cell_text(row[i]))])
}

pub open spec fn blank_row(row: Seq<Seq<SpanV>>) -> bool {
    forall|i: int| 0 <= i < row.len() ==> chars::is_blank(ir::plain(#[trigger] row[i]))
}

/// The rows without the blank ones at the end.
pub open spec fn without_blank_tail(rows: Seq<Seq<Seq<SpanV>>>) -> Seq<Seq<Seq<SpanV>>>
    decreases rows.len(),
{
    if rows.len() > 0 && blank_row(rows.last()) {
        without_blank_tail(rows.drop_last())
    } else {
        rows
    }
}

/// The first rows, one more than may be shown.
pub open spec fn leading_rows(cells: Seq<Seq<CellV>>, max_rows: u32) -> Seq<Seq<Seq<SpanV>>> {
    let n = if cells.len() > max_rows {
        max_rows as int + 1
    } else {
        cells.len() as int
    };
    Seq::new(n as nat, |i: int| text_row(cells[i]))
}

pub open spec fn sheet_table(rows: Seq<Seq<Seq<SpanV>>>) -> TableV {
    if rows.len() > 1 && !blank_row(rows[0]) {
        TableV { caption: None, header: Some(rows[0]), rows: rows.skip(1) }
    } else {
        TableV { caption: None, header: None, rows }
    }
}

/// How many cells a sheet has, as far as that can be counted.
pub open spec fn cell_count(cells: Seq<Seq<CellV>>) -> u64 {
    let n = if cells.len() == 0 {
        0
    } else {
        cells.len() * cells[0].len()
    };
    if n > u64::MAX {
        u64::MAX
    } else {
        n as u64
    }
}

pub open spec fn empty_sheet() -> BlockV {
    BlockV::Paragraph(seq![SpanV::Text("(empty sheet)"@)])
}

/// The document with one readable sheet's cells.
pub open spec fn with_cells(d: DocumentV, s: SheetV, cells: Seq<Seq<CellV>>, max_rows: u32) -> DocumentV {
    let rows = without_blank_tail(leading_rows(cells, max_rows));
    if rows.len() == 0 {
        d.pushed(empty_sheet())
    } else {
        let w = if cells.len() > max_rows {
            d.warned(
                WarningV {
                    kind: WarningKind::Truncated,
                    message: "sheet "@ + text::quoted_debug(s.name) + ": "@ + chars::decimal(
                        cells.len(),
                    ) + " rows, capped at "@ + chars::decimal(max_rows as nat),
                },
            )
        } else {
            d
        };
        w.pushed(BlockV::Table(sheet_table(rows)))
    }
}

/// The sheets from the `i`-th on.
pub open spec fn sheets_from(sheets: Seq<SheetV>, i: int, d: DocumentV, c: CxV) -> (
    Result<DocumentV, ErrorV>,
    CxV,
)
    decreases sheets.len() - i,
{
    if i < 0 || i >= sheets.len() {
        (Ok(d), c)
    } else {
        let s = sheets[i];
        match s.cells {
            None => sheets_from(
                sheets,
                i + 1,
                d.warned(
                    WarningV {
                        kind: WarningKind::SkippedMember,
                        message: "sheet "@ + text::quoted_debug(s.name) + " could not be read"@,
                    },
                ),
                c,
            ),
            Some(cells) => {
                let h = d.pushed(BlockV::Heading { level: 2, text: seq![SpanV::Text(s.name)] });
                if cells.len() == 0 {
                    sheets_from(sheets, i + 1, h.pushed(empty_sheet()), c)
                } else {
                    let n = cell_count(cells);
                    let after = c.with_budget(c.budget().expand(n));
                    if c.budget().expand_fails(n) {
                        (
                            Err(
                                cx::limit_error(
                                    "max_expanded_bytes"@,
                                    after.expanded,
                                    c.limits.max_expanded_bytes,
                                ),
                            ),
                            after,
                        )
                    } else {
                        sheets_from(
                            sheets,
                            i + 1,
                            with_cells(h, s, cells, c.limits.max_table_rows),
                            after,
                        )
                    }
                }
            },
        }
    }
}

pub open spec fn titled_by_file(info: StreamInfoV) -> DocumentV {
    match info.filename {
        Some(f) => ir::empty_document().titled(f),
        None => ir::empty_document(),
    }
}

/// What a workbook becomes, given its sheets or why it does not open.
pub open spec fn spreadsheet_result(
    sheets: ExtractedV<Seq<SheetV>>,
    info: StreamInfoV,
    pre: CxV,
) -> (Result<DocumentV, ErrorV>, CxV) {
    match sheets {
        ExtractedV::Panicked => (Err(ErrorV::ConverterPanic { format: "spreadsheet"@ }), pre),
        ExtractedV::Failed(m) => (Err(open_error(m)), pre),
        ExtractedV::Ready(ss) => if ss.len() == 0 {
            (
                Ok(
                    titled_by_file(info).warned(
                        WarningV {
                            kind: WarningKind::NoTextLayer,
                            message: "the workbook contains no sheets"@,
                        },
                    ),
                ),
                pre,
            )
        } else {
            sheets_from(ss, 0, titled_by_file(info), pre)
        },
    }
}

pub open spec fn opened_view(r: Extracted<Vec<Sheet>>) -> ExtractedV<Seq<SheetV>> {
    match r {
        Extracted::Ready(v) => ExtractedV::Ready(sheets_view(v@)),
        Extracted::Failed(m) => ExtractedV::Failed(m@),
        Extracted::Panicked => ExtractedV::Panicked,
    }
}

/// The clock is read before the `i`-th sheet or a later one, with the context
/// as it then is.
pub open spec fn sheet_reached(sheets: Seq<SheetV>, i: int, c: CxV, at: CxV) -> bool
    decreases sheets.len() - i,
{
    0 <= i < sheets.len() && (at == c || match sheets[i].cells {
        Some(cells) => if cells.len() == 0 {
            sheet_reached(sheets, i + 1, c, at)
        } else {
            let n = cell_count(cells);
            !c.budget().expand_fails(n) && sheet_reached(
                sheets,
                i + 1,
                c.with_budget(c.budget().expand(n)),
                at,
            )
        },
        None => sheet_reached(sheets, i + 1, c, at),
    })
}

/// What the sheets may become: what they say, or that the time ran out before
/// one of them.
pub open spec fn sheets_convert(
    sheets: ExtractedV<Seq<SheetV>>,
    info: StreamInfoV,
    pre: CxV,
    post: CxV,
    r: Result<DocumentV, ErrorV>,
) -> bool {
    ||| (r, post) == spreadsheet_result(sheets, info, pre)
    ||| registry::late(pre, r) && (sheets matches ExtractedV::Ready(ss) && sheet_reached(
        ss,
        0,
        pre,
        post,
    ))
}

/// What a workbook may become: what the host read of it decides.
pub open spec fn spreadsheet_converts<X: Extractor>(
    tools: X,
    bytes: Seq<u8>,
    info: StreamInfoV,
    pre: CxV,
    post: CxV,
    r: Result<DocumentV, ErrorV>,
) -> bool {
    exists|sheets: ExtractedV<Seq<SheetV>>| #[trigger]
        tools.may_give_sheets(bytes, sheets) && sheets_convert(sheets, info, pre, post, r)
}

pub proof fn lemma_tail_is_prefix(rows: Seq<Seq<Seq<SpanV>>>)
    ensures
        without_blank_tail(rows).len() <= rows.len(),
        without_blank_tail(rows) == rows.take(without_blank_tail(rows).len() as int),
    decreases rows.len(),
{
    if rows.len() > 0 && blank_row(rows.last()) {
        lemma_tail_is_prefix(rows.drop_last());
        let n = without_blank_tail(rows).len() as int;
        assert(rows.drop_last().take(n) =~= rows.take(n));
    } else {
        assert(rows.take(rows.len() as int) =~= rows);
    }
}

/// No sheet's table has more rows than the limit allows and one for its header.
pub proof fn tables_are_capped(cells: Seq<Seq<CellV>>, max_rows: u32)
    ensures
        without_blank_tail(leading_rows(cells, max_rows)).len() <= max_rows + 1,
{
    lemma_tail_is_prefix(leading_rows(cells, max_rows));
}

/// The warning for a sheet that is not shown in full: one that could not be
/// read, or one with more rows than the limit allows.
pub open spec fn sheet_warning(s: SheetV, max_rows: u32) -> Option<WarningV> {
    match s.cells {
        None => Some(
            WarningV {
                kind: WarningKind::SkippedMember,
                message: "sheet "@ + text::quoted_debug(s.name) + " could not be read"@,
            },
        ),
        Some(cells) => if cells.len() > max_rows && without_blank_tail(
            leading_rows(cells, max_rows),
        ).len() > 0 {
            Some(
                WarningV {
                    kind: WarningKind::Truncated,
                    message: "sheet "@ + text::quoted_debug(s.name) + ": "@ + chars::decimal(
                        cells.len(),
                    ) + " rows, capped at "@ + chars::decimal(max_rows as nat),
                },
            )
        } else {
            None
        },
    }
}

/// A sheet that could not be read, or that is cut, is reported. A cut sheet
/// whose leading rows are all blank is shown as empty instead.
pub proof fn incomplete_sheets_are_reported(
    sheets: Seq<SheetV>,
    i: int,
    d: DocumentV,
    c: CxV,
    k: int,
)
    requires
        0 <= i,
    ensures
        sheets_from(sheets, i, d, c).0 matches Ok(doc) ==> {
            &&& forall|w: WarningV| d.warnings.contains(w) ==> #[trigger] doc.warnings.contains(w)
            &&& i <= k < sheets.len() && sheet_warning(sheets[k], c.limits.max_table_rows) is Some
                ==> doc.warnings.contains(
                sheet_warning(sheets[k], c.limits.max_table_rows)->Some_0,
            )
        },
    decreases sheets.len() - i,
{
    if i < sheets.len() {
        let s = sheets[i];
        let max = c.limits.max_table_rows;
        let (e, x) = match s.cells {
            None => (d.warned(sheet_warning(s, max)->Some_0), c),
            Some(cells) => {
                let h = d.pushed(BlockV::Heading { level: 2, text: seq![SpanV::Text(s.name)] });
                if cells.len() == 0 {
                    (h.pushed(empty_sheet()), c)
                } else {
                    (
                        with_cells(h, s, cells, max),
                        c.with_budget(c.budget().expand(cell_count(cells))),
                    )
                }
            },
        };
        incomplete_sheets_are_reported(sheets, i + 1, e, x, k);
        assert forall|w: WarningV| d.warnings.contains(w) implies e.warnings.contains(w) by {
            let j = d.warnings.index_of(w);
            assert(e.warnings[j] == w);
        }
        if let Some(w) = sheet_warning(s, max) {
            assert(e.warnings[d.warnings.len() as int] == w);
        }
    }
}

/// What an error on opening a workbook means.
pub fn map_open_error(message: String) -> (r: ConvertError)
    ensures
        r@ == open_error(message@),
{
    let lower = text::lower(&message);
    if text::contains(&lower, "password") || text::contains(&lower, "encrypt") {
        ConvertError::Encrypted { format: "spreadsheet" }
    } else {
        ConvertError::Malformed { format: "spreadsheet", message }
    }
}

fn signed_text(n: i64) -> (r: String)
    ensures
        r@ == signed(n as int),
{
    if n < 0 {
        let m: u64 = (0 - (n as i128)) as u64;
        let d = text::decimal(m);
        text::cat("-", &d)
    } else {
        text::decimal(n as u64)
    }
}

fn pad(n: u16, width: usize) -> (r: String)
    ensures
        r@ == padded(n as nat, width as nat),
{
    let d = text::decimal(n as u64);
    let v = text::to_chars(&d);
    if v.len() < width {
        let z = text::repeat("0", width - v.len());
        text::cat(&z, &d)
    } else {
        d
    }
}

fn join3(a: u16, width: usize, b: u8, c: u8, sep: &str) -> (r: String)
    ensures
        r@ == padded(a as nat, width as nat) + sep@ + padded(b as nat, 2) + sep@ + padded(
            c as nat,
            2,
        ),
{
    let x = pad(a, width);
    let y = pad(b as u16, 2);
    let z = pad(c as u16, 2);
    let t = text::cat3(&x, sep, &y);
    text::cat3(&t, sep, &z)
}

/// A cell as text.
pub fn cell_text(c: &Cell) -> (r: String)
    ensures
        r@ == spec_cell_text(c@),
{
    match c {
        Cell::Empty => String::new(),
        Cell::Text(s) => s.clone(),
        Cell::Number(s) => if text::eq(s, "-0") {
            "0".to_owned()
        } else {
            s.clone()
        },
        Cell::Int(n) => signed_text(*n),
        Cell::Bool(b) => if *b {
            "true".to_owned()
        } else {
            "false".to_owned()
        },
        Cell::Hours(s) => text::cat(s, " h"),
        Cell::DateTime { year, month, day, hour, minute, second } => {
            let date = join3(*year, 4, *month, *day, "-");
            if *hour == 0 && *minute == 0 && *second == 0 {
                date
            } else {
                let time = join3(*hour as u16, 2, *minute, *second, ":");
                text::cat3(&date, "T", &time)
            }
        },
        Cell::Iso(s) => s.clone(),
        Cell::Fault(s) => text::cat("#", s),
    }
}

fn row_of(row: &Vec<Cell>) -> (r: Vec<Inline>)
    ensures
        ir::cells_view(r@) == text_row(row_view(row@)),
{
    let mut out: Vec<Inline> = Vec::new();
    let mut i: usize = 0;
    while i < row.len()
        invariant
            i <= row@.len(),
            out@.len() == i,
            forall|k: int|
                0 <= k < i ==> #[trigger] out@[k]@ == text_row(row_view(row@))[k],
        decreases row@.len() - i,
    {
        let t = cell_text(&row[i]);
        out.push(Inline::text(t));
        i += 1;
    }
    assert(ir::cells_view(out@) =~= text_row(row_view(row@)));
    out
}

fn is_blank_row(row: &Vec<Inline>) -> (r: bool)
    ensures
        r == blank_row(ir::cells_view(row@)),
{
    let ghost v = ir::cells_view(row@);
    let mut i: usize = 0;
    while i < row.len()
        invariant
            i <= row@.len(),
            v == ir::cells_view(row@),
            forall|k: int| 0 <= k < i ==> chars::is_blank(ir::plain(#[trigger] v[k])),
        decreases row@.len() - i,
    {
        assert(v[i as int] == row@[i as int]@);
        if !row[i].is_blank() {
            return false;
        }
        i += 1;
    }
    true
}

fn rows_of(cells: &Vec<Vec<Cell>>, max_rows: u32) -> (r: Vec<Vec<Inline>>)
    ensures
        ir::rows_view(r@) == without_blank_tail(leading_rows(grid_view(cells@), max_rows)),
{
    let ghost all = leading_rows(grid_view(cells@), max_rows);
    let n: usize = if cells.len() as u64 > max_rows as u64 {
        max_rows as usize + 1
    } else {
        cells.len()
    };
    let mut rows: Vec<Vec<Inline>> = Vec::new();
    let mut i: usize = 0;
    while i < n
        invariant
            i <= n == all.len(),
            n <= cells@.len(),
            all == leading_rows(grid_view(cells@), max_rows),
            rows@.len() == i,
            forall|k: int| 0 <= k < i ==> ir::cells_view(#[trigger] rows@[k]@) == all[k],
        decreases n - i,
    {
        rows.push(row_of(&cells[i]));
        i += 1;
    }
    assert(ir::rows_view(rows@) =~= all);
    let mut more = true;
    while more && rows.len() > 0
        invariant
            without_blank_tail(ir::rows_view(rows@)) == without_blank_tail(all),
            !more ==> ir::rows_view(rows@) == without_blank_tail(all),
        decreases rows@.len() + (if more {
            1int
        } else {
            0
        }),
    {
        let ghost v = ir::rows_view(rows@);
        assert(v.last() == ir::cells_view(rows@.last()@));
        if is_blank_row(&rows[rows.len() - 1]) {
            rows.pop();
            assert(ir::rows_view(rows@) =~= v.drop_last());
        } else {
            more = false;
        }
    }
    if rows.len() == 0 {
        assert(ir::rows_view(rows@) =~= seq![]);
    }
    rows
}

fn table_of(rows: Vec<Vec<Inline>>) -> (r: Table)
    ensures
        r@ == sheet_table(ir::rows_view(rows@)),
{
    let ghost v = ir::rows_view(rows@);
    let mut rows = rows;
    if rows.len() > 1 {
        if !is_blank_row(&rows[0]) {
            let header = rows.remove(0);
            assert(ir::rows_view(rows@) =~= v.skip(1));
            return Table { caption: None, header: Some(header), rows };
        }
    }
    Table { caption: None, header: None, rows }
}

fn count_cells(cells: &Vec<Vec<Cell>>) -> (r: u64)
    requires
        cells@.len() > 0,
    ensures
        r == cell_count(grid_view(cells@)),
{
    let h: u128 = cells.len() as u128;
    let w: u128 = cells[0].len() as u128;
    assert(h * w <= 0xffff_ffff_ffff_ffff * 0xffff_ffff_ffff_ffff) by (nonlinear_arith)
        requires
            h <= 0xffff_ffff_ffff_ffff,
            w <= 0xffff_ffff_ffff_ffff,
    ;
    let n: u128 = h * w;
    assert(grid_view(cells@)[0].len() == w);
    if n > 0xffff_ffff_ffff_ffff {
        u64::MAX
    } else {
        n as u64
    }
}

fn push_cells(doc: &mut Document, name: &str, cells: &Vec<Vec<Cell>>, max_rows: u32)
    ensures
        final(doc)@ == with_cells(
            old(doc)@,
            SheetV { name: name@, cells: Some(grid_view(cells@)) },
            grid_view(cells@),
            max_rows,
        ),
{
    let rows = rows_of(cells, max_rows);
    if rows.len() == 0 {
        doc.push(Block::Paragraph(Inline::text("(empty sheet)")));
        return ;
    }
    if cells.len() as u64 > max_rows as u64 {
        let q = text::debug(name);
        let a = text::decimal(cells.len() as u64);
        let b = text::decimal(max_rows as u64);
        let m = text::cat3("sheet ", &q, ": ");
        let m2 = text::cat3(&m, &a, " rows, capped at ");
        let m3 = text::cat(&m2, &b);
        doc.warn(Warning::new(WarningKind::Truncated, m3));
    }
    doc.push(Block::Table(table_of(rows)));
}

pub(crate) fn accepts_spreadsheet(probe: &Probe<'_>, info: &StreamInfo) -> (r: bool)
    ensures
        r == spreadsheet_takes(probe@, info@),
{
    let by_type = match &info.mimetype {
        Some(m) => text::contains(m, "spreadsheet"),
        None => false,
    };
    (info.is_ext("xlsx") || info.is_ext("xlsm") || info.is_ext("xlsb") || info.is_ext("xls")
        || info.is_ext("ods") || info.is_mime("application/vnd.ms-excel") || by_type) && (
    detect::has_zip_magic(probe) || detect::has_ole_magic(probe))
}

/// What a workbook becomes, given its sheets or why it does not open.
pub fn convert_sheets(
    sheets: Extracted<Vec<Sheet>>,
    info: &StreamInfo,
    cx: &mut ConvertCx<'_>,
) -> (r: Result<Document, ConvertError>)
    ensures
        *final(final(cx).budget) == *final(old(cx).budget),
        final(cx).start() == old(cx).start(),
        old(cx)@.grows_to(final(cx)@),
        sheets_convert(
            opened_view(sheets),
            info@,
            old(cx)@,
            final(cx)@,
            registry::outcome(r),
        ),
{
    let ss = match sheets {
        Extracted::Ready(ss) => ss,
        Extracted::Failed(m) => {
            return Err(map_open_error(m));
        },
        Extracted::Panicked => {
            return Err(ConvertError::ConverterPanic { format: "spreadsheet" });
        },
    };
    let mut doc = Document::new();
    if let Some(f) = &info.filename {
        doc = doc.with_title(f);
    }
    if ss.len() == 0 {
        doc.warn(Warning::new(WarningKind::NoTextLayer, "the workbook contains no sheets"));
        return Ok(doc);
    }
    let max_rows: u32 = cx.limits().max_table_rows;
    let ghost v = sheets_view(ss@);
    let ghost all = sheets_from(v, 0, doc@, cx@);
    let mut i: usize = 0;
    while i < ss.len()
        invariant
            i <= ss@.len(),
            v == sheets_view(ss@),
            max_rows == cx@.limits.max_table_rows,
            all == spreadsheet_result(opened_view(sheets), info@, old(cx)@),
            *final(cx.budget) == *final(old(cx).budget),
            cx.start() == old(cx).start(),
            old(cx)@.grows_to(cx@),
            all == sheets_from(v, i as int, doc@, cx@),
            opened_view(sheets) == ExtractedV::Ready(v),
            forall|at: CxV| #[trigger]
                sheet_reached(v, i as int, cx@, at) ==> sheet_reached(v, 0, old(cx)@, at),
        decreases ss@.len() - i,
    {
        let ghost c = cx@;
        assert(v[i as int] == ss@[i as int]@);
        if let Err(e) = cx.budget().check_deadline() {
            assert(sheet_reached(v, i as int, c, c));
            return Err(e);
        }
        let name = &ss[i].name;
        match &ss[i].cells {
            None => {
                let q = text::debug(name);
                let m = text::cat3("sheet ", &q, " could not be read");
                doc.warn(Warning::new(WarningKind::SkippedMember, m));
            },
            Some(cells) => {
                doc.push(Block::Heading { level: 2, text: Inline::text(name) });
                if cells.len() == 0 {
                    doc.push(Block::Paragraph(Inline::text("(empty sheet)")));
                } else {
                    let n: u64 = count_cells(cells);
                    if let Err(e) = cx.charge_expanded(n) {
                        return Err(e);
                    }
                    push_cells(&mut doc, name, cells, max_rows);
                }
            },
        }
        assert forall|at: CxV| #[trigger] sheet_reached(v, i + 1, cx@, at) implies sheet_reached(
            v,
            0,
            old(cx)@,
            at,
        ) by {
            assert(sheet_reached(v, i as int, c, at));
        }
        i += 1;
    }
    Ok(doc)
}

/// Converts a workbook with what the host reads of it.
pub(crate) fn convert_spreadsheet<X: Extractor>(
    tools: &X,
    bytes: &[u8],
    info: &StreamInfo,
    cx: &mut ConvertCx<'_>,
) -> (r: Result<Document, ConvertError>)
    ensures
        *final(final(cx).budget) == *final(old(cx).budget),
        final(cx).start() == old(cx).start(),
        old(cx)@.grows_to(final(cx)@),
        spreadsheet_converts(*tools, bytes@, info@, old(cx)@, final(cx)@, registry::outcome(r)),
{
    let sheets = tools.sheets(bytes);
    convert_sheets(sheets, info, cx)
}

impl<X: Extractor> Converter for SpreadsheetConverter<X> {
    open spec fn named(&self) -> Seq<char> {
        "spreadsheet"@
    }

    open spec fn ranked(&self) -> i32 {
        0
    }

    open spec fn takes(&self, probe: ProbeV, info: StreamInfoV) -> bool {
        spreadsheet_takes(probe, info)
    }

    open spec fn converts(
        &self,
        bytes: Seq<u8>,
        info: StreamInfoV,
        pre: CxV,
        post: CxV,
        r: Result<DocumentV, ErrorV>,
    ) -> bool {
        spreadsheet_converts(self.0, bytes, info, pre, post, r)
    }

    fn name(&self) -> (r: &'static str) {
        "spreadsheet"
    }

    fn priority(&self) -> (r: i32) {
        PRIORITY_SPECIFIC
    }

    fn accepts(&self, probe: &Probe<'_>, info: &StreamInfo) -> (r: bool) {
        accepts_spreadsheet(probe, info)
    }

    fn convert(&self, bytes: &[u8], info: &StreamInfo, cx: &mut ConvertCx<'_>) -> (r: Result<
        Document,
        ConvertError,
    >) {
        convert_spreadsheet(&self.0, bytes, info, cx)
    }
}

} // verus!

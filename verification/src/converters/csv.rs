//! CSV and its tab-, semicolon- and pipe-separated relatives.

use std::io::Cursor;
use vstd::prelude::*;
use crate::chars;
use crate::converters;
use crate::converters::decode_info;
use crate::cx::{ConvertCx, CxV};
use crate::error::{ConvertError, ErrorV};
use crate::ir;
use crate::ir::{Block, BlockV, Document, DocumentV, Inline, SpanV, Table, TableV};
use crate::registry;
use crate::registry::{Converter, PRIORITY_SPECIFIC};
use crate::stream_info::{Probe, ProbeV, StreamInfo, StreamInfoV};
use crate::text;

verus! {

/// `csv::Reader`, carried through as an opaque value; what it reads and how
/// far it has got are [`csv_source`] and [`csv_position`].
#[verifier::external_type_specification]
#[verifier::external_body]
#[verifier::reject_recursive_types(R)]
pub struct ExCsvReader<R>(::csv::Reader<R>);

/// The text that a reader was opened on, and its delimiter.
pub uninterp spec fn csv_source(r: ::csv::Reader<Cursor<Vec<u8>>>) -> (Seq<char>, u8);

/// How many answers a reader has given, its end or fault among them.
pub uninterp spec fn csv_position(r: ::csv::Reader<Cursor<Vec<u8>>>) -> nat;

/// The records of a text up to its end or to the first fault, and that fault's
/// message.
pub uninterp spec fn csv_stream(source: (Seq<char>, u8)) -> (
    Seq<Seq<Seq<char>>>,
    Option<Seq<char>>,
);

/// `csv::ReaderBuilder`, with rows of any length and no header row: a reader
/// at the start of the text.
#[verifier::external_body]
fn open_csv(source: &str, delimiter: u8) -> (r: ::csv::Reader<Cursor<Vec<u8>>>)
    ensures
        csv_source(r) == (source@, delimiter),
        csv_position(r) == 0,
{
    ::csv::ReaderBuilder::new()
        .delimiter(delimiter)
        .flexible(true)
        .has_headers(false)
        .from_reader(Cursor::new(source.as_bytes().to_vec()))
}

/// `Reader::read_record`: hands out the records of the text one by one, then
/// its end or its first fault. Which records those are depends on the text and
/// the delimiter alone.
/// What a call after the end or the fault gives is left open.
#[verifier::external_body]
fn next_record(reader: &mut ::csv::Reader<Cursor<Vec<u8>>>) -> (r: Result<Option<Vec<String>>, String>)
    ensures
        csv_source(*final(reader)) == csv_source(*old(reader)),
        ({
            let s = csv_stream(csv_source(*old(reader)));
            let k = csv_position(*old(reader));
            if k < s.0.len() {
                &&& r matches Ok(Some(v)) && chars::texts(v@) == s.0[k as int]
                &&& csv_position(*final(reader)) == k + 1
            } else if k == s.0.len() {
                &&& match s.1 {
                    Some(m) => r matches Err(e) && e@ == m,
                    None => r matches Ok(None),
                }
                &&& csv_position(*final(reader)) == k + 1
            } else {
                csv_position(*final(reader)) == k + 1
            }
        }),
{
    let mut record = ::csv::StringRecord::new();
    match reader.read_record(&mut record) {
        Ok(true) => Ok(Some(record.iter().map(|c| c.to_owned()).collect())),
        Ok(false) => Ok(None),
        Err(e) => Err(e.to_string()),
    }
}

/// Delimited text.
pub struct CsvConverter;

pub open spec fn csv_takes(probe: ProbeV, info: StreamInfoV) -> bool {
    probe.looks_textual() && (info.is_mime("text/csv"@) || info.is_mime(
        "text/tab-separated-values"@,
    ) || info.is_ext("csv"@) || info.is_ext("tsv"@) || info.is_ext("tab"@))
}

/// How often `c` occurs in `s`.
pub open spec fn occurrences(s: Seq<char>, c: char) -> nat
    decreases s.len(),
{
    if s.len() == 0 {
        0
    } else {
        occurrences(s.drop_last(), c) + (if s.last() == c {
            1nat
        } else {
            0
        })
    }
}

/// The lines that are not blank.
pub open spec fn nonblank(lines: Seq<Seq<char>>) -> Seq<Seq<char>>
    decreases lines.len(),
{
    if lines.len() == 0 {
        seq![]
    } else {
        let t = nonblank(lines.drop_last());
        if chars::is_blank(lines.last()) {
            t
        } else {
            t.push(lines.last())
        }
    }
}

/// The first five lines that are not blank.
pub open spec fn sample(s: Seq<char>) -> Seq<Seq<char>> {
    let all = nonblank(chars::lines(s));
    if all.len() > 5 {
        all.take(5)
    } else {
        all
    }
}

/// Every line holds `c`, and equally often.
pub open spec fn is_steady(lines: Seq<Seq<char>>, c: char) -> bool {
    &&& lines.len() > 0
    &&& occurrences(lines[0], c) > 0
    &&& forall|i: int|
        0 <= i < lines.len() ==> occurrences(#[trigger] lines[i], c) == occurrences(lines[0], c)
}

/// The better of a candidate so far and `c`: more columns win.
pub open spec fn better(best: Option<(char, nat)>, lines: Seq<Seq<char>>, c: char) -> Option<
    (char, nat),
> {
    if is_steady(lines, c) && (match best {
        Some(b) => occurrences(lines[0], c) > b.1,
        None => true,
    }) {
        Some((c, occurrences(lines[0], c)))
    } else {
        best
    }
}

/// The delimiter that divides the sample evenly into the most columns.
pub open spec fn spec_sniff_delimiter(s: Seq<char>) -> Option<(char, nat)> {
    let l = sample(s);
    better(better(better(better(None, l, ','), l, ';'), l, '\t'), l, '|')
}

pub open spec fn spec_delimiter(info: StreamInfoV, s: Seq<char>) -> u8 {
    if info.is_ext("tsv"@) || info.is_ext("tab"@) || info.is_mime("text/tab-separated-values"@) {
        0x09
    } else {
        match spec_sniff_delimiter(s) {
            Some(b) => b.0 as u8,
            None => 0x2c,
        }
    }
}

pub open spec fn strip_sign(s: Seq<char>) -> Seq<char> {
    if s.len() > 0 && (s[0] == '+' || s[0] == '-') {
        s.skip(1)
    } else {
        s
    }
}

/// How many digits start `s`.
pub open spec fn digits_len(s: Seq<char>) -> int
    decreases s.len(),
{
    if s.len() > 0 && chars::is_digit(s[0]) {
        1 + digits_len(s.skip(1))
    } else {
        0
    }
}

/// Nothing, or an exponent.
pub open spec fn is_exponent(s: Seq<char>) -> bool {
    s.len() == 0 || ((s[0] == 'e' || s[0] == 'E') && {
        let d = strip_sign(s.skip(1));
        d.len() > 0 && digits_len(d) == d.len()
    })
}

/// Digits with an optional point and an optional exponent.
pub open spec fn is_decimal(s: Seq<char>) -> bool {
    let i = digits_len(s);
    let rest = s.skip(i);
    if rest.len() > 0 && rest[0] == '.' {
        let f = digits_len(rest.skip(1));
        i + f > 0 && is_exponent(rest.skip(1).skip(f))
    } else {
        i > 0 && is_exponent(rest)
    }
}

/// A floating-point literal: a decimal number, an infinity or not-a-number,
/// each with an optional sign.
pub open spec fn is_float(s: Seq<char>) -> bool {
    let t = strip_sign(s);
    let l = chars::lower(t);
    l == "inf"@ || l == "infinity"@ || l == "nan"@ || is_decimal(t)
}

/// The cell is a number.
pub open spec fn is_numeric(cell: Seq<char>) -> bool {
    chars::trim(cell).len() > 0 && is_float(chars::trim(cell))
}

/// No cell of the row is a number.
pub open spec fn is_wordy(row: Seq<Seq<char>>) -> bool {
    forall|i: int| 0 <= i < row.len() ==> !is_numeric(#[trigger] row[i])
}

/// The first row names the columns: it is alone, or it holds no number.
pub open spec fn has_header(rows: Seq<Seq<Seq<char>>>) -> bool {
    rows.len() == 1 || (rows.len() > 1 && is_wordy(rows[0]))
}

pub open spec fn text_cells(row: Seq<Seq<char>>) -> Seq<Seq<SpanV>> {
    Seq::new(row.len(), |i: int| seq![SpanV::Text(row[i])])
}

pub open spec fn text_rows(rows: Seq<Seq<Seq<char>>>) -> Seq<Seq<Seq<SpanV>>> {
    Seq::new(rows.len(), |i: int| text_cells(rows[i]))
}

/// The table that rows make.
pub open spec fn csv_table(caption: Option<Seq<char>>, rows: Seq<Seq<Seq<char>>>) -> TableV {
    if has_header(rows) {
        TableV {
            caption,
            header: Some(text_cells(rows[0])),
            rows: text_rows(rows).skip(1),
        }
    } else {
        TableV { caption, header: None, rows: text_rows(rows) }
    }
}

/// The rows that are kept: two more than are rendered.
pub open spec fn kept_rows(rows: Seq<Seq<Seq<char>>>, max_rows: u32) -> Seq<Seq<Seq<char>>> {
    if rows.len() > max_rows + 2 {
        rows.take(max_rows + 2)
    } else {
        rows
    }
}

/// The document of such rows.
pub open spec fn rows_document(caption: Option<Seq<char>>, rows: Seq<Seq<Seq<char>>>) -> DocumentV {
    if rows.len() == 0 {
        ir::empty_document()
    } else {
        ir::empty_document().pushed(BlockV::Table(csv_table(caption, rows)))
    }
}

pub open spec fn records_view(v: Seq<Vec<String>>) -> Seq<Seq<Seq<char>>> {
    Seq::new(v.len(), |i: int| chars::texts(v[i]@))
}

/// What the records of a text become. A fault counts only where it is reached
/// before the row cap.
pub open spec fn csv_document(
    stream: (Seq<Seq<Seq<char>>>, Option<Seq<char>>),
    caption: Option<Seq<char>>,
    max_rows: u32,
) -> Result<DocumentV, ErrorV> {
    match stream.1 {
        Some(m) if stream.0.len() < max_rows + 2 => Err(
            ErrorV::Malformed { format: "csv"@, message: m },
        ),
        _ => Ok(rows_document(caption, kept_rows(stream.0, max_rows))),
    }
}

pub(crate) fn count_char(s: &str, c: char) -> (r: usize)
    ensures
        r == occurrences(s@, c),
{
    let v = text::to_chars(s);
    let mut n: usize = 0;
    let mut i: usize = 0;
    while i < v.len()
        invariant
            i <= v@.len(),
            n <= i,
            n == occurrences(v@.take(i as int), c),
        decreases v@.len() - i,
    {
        assert(v@.take(i + 1).drop_last() =~= v@.take(i as int));
        if v[i] == c {
            n += 1;
        }
        i += 1;
    }
    assert(v@.take(v@.len() as int) =~= v@);
    n
}

fn steady(lines: &Vec<String>, c: char) -> (r: Option<usize>)
    ensures
        r is Some == is_steady(chars::texts(lines@), c),
        r matches Some(n) ==> n == occurrences(chars::texts(lines@)[0], c),
{
    let ghost v = chars::texts(lines@);
    if lines.len() == 0 {
        return None;
    }
    let first: usize = count_char(&lines[0], c);
    assert(v[0] == lines@[0]@);
    if first == 0 {
        return None;
    }
    let mut i: usize = 0;
    while i < lines.len()
        invariant
            i <= lines@.len(),
            v == chars::texts(lines@),
            first == occurrences(v[0], c),
            forall|k: int| 0 <= k < i ==> occurrences(#[trigger] v[k], c) == first,
        decreases lines@.len() - i,
    {
        if count_char(&lines[i], c) != first {
            assert(occurrences(v[i as int], c) != occurrences(v[0], c));
            return None;
        }
        i += 1;
    }
    Some(first)
}

spec fn best_view(b: Option<(char, usize)>) -> Option<(char, nat)> {
    match b {
        Some(x) => Some((x.0, x.1 as nat)),
        None => None,
    }
}

fn pick(best: Option<(char, usize)>, lines: &Vec<String>, c: char) -> (r: Option<(char, usize)>)
    ensures
        best_view(r) == better(best_view(best), chars::texts(lines@), c),
{
    match steady(lines, c) {
        Some(n) => match best {
            Some(b) => if n > b.1 {
                Some((c, n))
            } else {
                best
            },
            None => Some((c, n)),
        },
        None => best,
    }
}

fn sample_lines(s: &str) -> (r: Vec<String>)
    ensures
        chars::texts(r@) == sample(s@),
{
    let ls = text::lines(s);
    let ghost v = chars::texts(ls@);
    let mut out: Vec<String> = Vec::new();
    let mut i: usize = 0;
    assert(chars::texts(out@) =~= seq![]);
    while i < ls.len()
        invariant
            i <= ls@.len(),
            v == chars::texts(ls@),
            chars::texts(out@) == nonblank(v.take(i as int)),
        decreases ls@.len() - i,
    {
        assert(v.take(i + 1).drop_last() =~= v.take(i as int));
        assert(v.take(i + 1).last() == ls@[i as int]@);
        if !text::is_blank(&ls[i]) {
            let l = ls[i].clone();
            proof {
                chars::lemma_texts_push(out@, l);
            }
            out.push(l);
        }
        i += 1;
    }
    assert(v.take(v.len() as int) =~= v);
    let ghost all = chars::texts(out@);
    if out.len() > 5 {
        out.truncate(5);
        assert(chars::texts(out@) =~= all.take(5));
    }
    out
}

/// The delimiter of a text: a tab where the type says so, else the one that
/// divides its first lines evenly into the most columns, else a comma.
pub fn delimiter_for(info: &StreamInfo, s: &str) -> (r: u8)
    ensures
        r == spec_delimiter(info@, s@),
{
    if info.is_ext("tsv") || info.is_ext("tab") || info.is_mime("text/tab-separated-values") {
        return 0x09;
    }
    let l = sample_lines(s);
    let a = pick(None, &l, ',');
    let b = pick(a, &l, ';');
    let c = pick(b, &l, '\t');
    let d = pick(c, &l, '|');
    match d {
        Some(x) => x.0 as u8,
        None => 0x2c,
    }
}

fn digits_end(v: &Vec<char>, from: usize) -> (r: usize)
    requires
        from <= v@.len(),
    ensures
        from <= r <= v@.len(),
        r == from + digits_len(v@.skip(from as int)),
{
    let mut i: usize = from;
    while i < v.len() && text::is_digit(v[i])
        invariant
            from <= i <= v@.len(),
            from + digits_len(v@.skip(from as int)) == i + digits_len(v@.skip(i as int)),
        decreases v@.len() - i,
    {
        assert(v@.skip(i as int).skip(1) =~= v@.skip(i + 1));
        assert(v@.skip(i as int)[0] == v@[i as int]);
        i += 1;
    }
    assert(digits_len(v@.skip(i as int)) == 0) by {
        if i < v@.len() {
            assert(v@.skip(i as int)[0] == v@[i as int]);
        }
    }
    i
}

fn sign_end(v: &Vec<char>, from: usize) -> (r: usize)
    requires
        from <= v@.len(),
    ensures
        from <= r <= v@.len(),
        v@.skip(r as int) == strip_sign(v@.skip(from as int)),
{
    if from < v.len() && (v[from] == '+' || v[from] == '-') {
        assert(v@.skip(from as int).skip(1) =~= v@.skip(from + 1));
        from + 1
    } else {
        from
    }
}

fn exponent_at(v: &Vec<char>, from: usize) -> (r: bool)
    requires
        from <= v@.len(),
    ensures
        r == is_exponent(v@.skip(from as int)),
{
    if from == v.len() {
        return true;
    }
    assert(v@.skip(from as int)[0] == v@[from as int]);
    if v[from] != 'e' && v[from] != 'E' {
        return false;
    }
    assert(v@.skip(from as int).skip(1) =~= v@.skip(from + 1));
    let at: usize = sign_end(v, from + 1);
    let end: usize = digits_end(v, at);
    at < v.len() && end == v.len()
}

fn decimal_at(v: &Vec<char>, from: usize) -> (r: bool)
    requires
        from <= v@.len(),
    ensures
        r == is_decimal(v@.skip(from as int)),
{
    let i: usize = digits_end(v, from);
    let ghost s = v@.skip(from as int);
    assert(s.skip(i - from) =~= v@.skip(i as int));
    if i < v.len() && v[i] == '.' {
        let f: usize = digits_end(v, i + 1);
        assert(v@.skip(i as int).skip(1) =~= v@.skip(i + 1));
        assert(v@.skip(i + 1).skip(f - i - 1) =~= v@.skip(f as int));
        (i > from || f > i + 1) && exponent_at(v, f)
    } else {
        i > from && exponent_at(v, i)
    }
}

/// The text is a floating-point literal.
pub fn parses_as_float(s: &str) -> (r: bool)
    ensures
        r == is_float(s@),
{
    let v = text::to_chars(s);
    let at: usize = sign_end(&v, 0);
    assert(v@.skip(0) =~= v@);
    assert(v@.subrange(at as int, v@.len() as int) =~= v@.skip(at as int));
    let t = text::slice(&v, at, v.len());
    let l = text::lower(&t);
    text::eq(&l, "inf") || text::eq(&l, "infinity") || text::eq(&l, "nan") || decimal_at(&v, at)
}

fn wordy(row: &Vec<String>) -> (r: bool)
    ensures
        r == is_wordy(chars::texts(row@)),
{
    let ghost v = chars::texts(row@);
    let mut i: usize = 0;
    while i < row.len()
        invariant
            i <= row@.len(),
            v == chars::texts(row@),
            forall|k: int| 0 <= k < i ==> !is_numeric(#[trigger] v[k]),
        decreases row@.len() - i,
    {
        let t = text::trim(&row[i]);
        if !text::is_empty(&t) && parses_as_float(&t) {
            assert(is_numeric(v[i as int]));
            return false;
        }
        i += 1;
    }
    true
}

/// A row of plain text cells.
pub(crate) fn cells_of(row: &Vec<String>) -> (r: Vec<Inline>)
    ensures
        ir::cells_view(r@) == text_cells(chars::texts(row@)),
{
    let mut out: Vec<Inline> = Vec::new();
    let mut i: usize = 0;
    while i < row.len()
        invariant
            i <= row@.len(),
            out@.len() == i,
            forall|k: int| 0 <= k < i ==> (#[trigger] out@[k])@ == seq![SpanV::Text(row@[k]@)],
        decreases row@.len() - i,
    {
        out.push(Inline::text(row[i].clone()));
        i += 1;
    }
    assert(ir::cells_view(out@) =~= text_cells(chars::texts(row@)));
    out
}

/// The document that a text's records make: a table, whose header is the first
/// record where that names the columns.
pub fn table_document(records: &Vec<Vec<String>>, caption: &Option<String>) -> (r: Document)
    ensures
        r@ == rows_document(chars::opt(*caption), records_view(records@)),
{
    let ghost v = records_view(records@);
    let mut doc = Document::new();
    if records.len() == 0 {
        return doc;
    }
    let mut rows: Vec<Vec<Inline>> = Vec::new();
    let mut i: usize = 0;
    assert(ir::rows_view(rows@) =~= text_rows(v.take(0)));
    while i < records.len()
        invariant
            i <= records@.len(),
            v == records_view(records@),
            ir::rows_view(rows@) == text_rows(v.take(i as int)),
        decreases records@.len() - i,
    {
        let ghost before = rows@;
        rows.push(cells_of(&records[i]));
        proof {
            assert(ir::rows_view(rows@) =~= ir::rows_view(before).push(text_cells(v[i as int])));
            assert(text_rows(v.take(i + 1)) =~= text_rows(v.take(i as int)).push(
                text_cells(v[i as int]),
            ));
        }
        i += 1;
    }
    assert(v.take(v.len() as int) =~= v);
    let ghost all = ir::rows_view(rows@);
    let header = if records.len() == 1 || wordy(&records[0]) {
        let ghost before = rows@;
        let h = rows.remove(0);
        assert(ir::rows_view(rows@) =~= ir::rows_view(before).skip(1));
        assert(ir::cells_view(h@) == all[0]);
        Some(h)
    } else {
        None
    };
    let table = Table { caption: text::opt_clone(caption), header, rows };
    assert(table@ =~= csv_table(chars::opt(*caption), v));
    doc.push(Block::Table(table));
    doc
}

/// The clock is read while the records are: after every 1024th that is kept
/// and not the last.
pub open spec fn clock_read(records: Seq<Seq<Seq<char>>>, max_rows: u32) -> bool {
    records.len() >= 1024 && max_rows + 1 >= 1024
}

impl Converter for CsvConverter {
    open spec fn named(&self) -> Seq<char> {
        "csv"@
    }

    open spec fn ranked(&self) -> i32 {
        0
    }

    open spec fn takes(&self, probe: ProbeV, info: StreamInfoV) -> bool {
        csv_takes(probe, info)
    }

    open spec fn converts(
        &self,
        bytes: Seq<u8>,
        info: StreamInfoV,
        pre: CxV,
        post: CxV,
        r: Result<DocumentV, ErrorV>,
    ) -> bool {
        let s = converters::spec_decode_text(bytes, info.charset);
        let t = csv_stream((s, spec_delimiter(info, s)));
        post == pre && (registry::late(pre, r) && clock_read(t.0, pre.limits.max_table_rows) || r
            == csv_document(t, info.filename, pre.limits.max_table_rows))
    }

    fn name(&self) -> (r: &'static str) {
        "csv"
    }

    fn priority(&self) -> (r: i32) {
        PRIORITY_SPECIFIC
    }

    fn accepts(&self, probe: &Probe<'_>, info: &StreamInfo) -> (r: bool) {
        probe.looks_textual() && (info.is_mime("text/csv") || info.is_mime(
            "text/tab-separated-values",
        ) || info.is_ext("csv") || info.is_ext("tsv") || info.is_ext("tab"))
    }

    fn convert(&self, bytes: &[u8], info: &StreamInfo, cx: &mut ConvertCx<'_>) -> (r: Result<
        Document,
        ConvertError,
    >) {
        let s = decode_info(bytes, &info.charset);
        let delimiter: u8 = delimiter_for(info, &s);
        let mut reader = open_csv(&s, delimiter);
        let ghost stream = csv_stream((s@, delimiter));
        let max_rows: u32 = cx.limits().max_table_rows;
        let cap: u64 = max_rows as u64 + 1;
        let mut rows: Vec<Vec<String>> = Vec::new();
        assert(records_view(rows@) =~= stream.0.take(0));
        loop
            invariant_except_break
                rows@.len() <= cap,
                csv_position(reader) == rows@.len(),
            invariant
                rows@.len() <= stream.0.len(),
                cap == max_rows + 1,
                stream == csv_stream(csv_source(reader)),
                records_view(rows@) == stream.0.take(rows@.len() as int),
                max_rows == old(cx)@.limits.max_table_rows,
                cx@ == old(cx)@,
                *final(cx.budget) == *final(old(cx).budget),
                cx.start() == old(cx).start(),
                s@ == converters::spec_decode_text(bytes@, chars::opt(info.charset)),
                stream == csv_stream((s@, spec_delimiter(info@, s@))),
            ensures
                rows@.len() <= stream.0.len(),
                records_view(rows@) == stream.0.take(rows@.len() as int),
                rows@.len() == max_rows + 2 || (rows@.len() == stream.0.len() && rows@.len()
                    < max_rows + 2 && stream.1 is None),
            decreases stream.0.len() - rows@.len(),
        {
            let ghost before = rows@;
            match next_record(&mut reader) {
                Ok(Some(record)) => {
                    rows.push(record);
                    proof {
                        let k = before.len() as int;
                        assert(stream.0.take(k + 1) =~= stream.0.take(k).push(stream.0[k]));
                        assert(records_view(rows@) =~= records_view(before).push(stream.0[k]));
                    }
                },
                Ok(None) => {
                    break;
                },
                Err(m) => {
                    return Err(ConvertError::Malformed { format: "csv", message: m });
                },
            }
            if rows.len() as u64 > cap {
                break;
            }
            if rows.len() % 1024 == 0 {
                assert(rows@.len() >= 1024);
                if let Err(e) = cx.budget().check_deadline() {
                    return Err(e);
                }
            }
        }
        assert(stream.0.take(rows@.len() as int) =~= kept_rows(stream.0, max_rows));
        Ok(table_document(&rows, &info.filename))
    }
}

/// However long a text is, its table has at most two rows more than are
/// rendered.
pub proof fn tables_are_capped(
    stream: (Seq<Seq<Seq<char>>>, Option<Seq<char>>),
    caption: Option<Seq<char>>,
    max_rows: u32,
)
    ensures
        csv_document(stream, caption, max_rows) matches Ok(d) ==> forall|i: int|
            0 <= i < d.blocks.len() ==> ((#[trigger] d.blocks[i]) matches BlockV::Table(t)
                && t.rows.len() <= max_rows + 2),
{
}

} // verus!

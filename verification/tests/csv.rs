//! Delimited text.

use mcpg_markdown_convert::converters::csv::CsvConverter;
use mcpg_markdown_convert::{Block, Inline, Probe, Table};
use mcpg_markdown_convert::{Budget, ConvertCx, Limits};
use mcpg_markdown_convert::{Converter, Document, StreamInfo};

fn convert(bytes: &[u8], info: &StreamInfo) -> Document {
    let mut b = Budget::new(Limits::default());
    let mut cx = ConvertCx::new(&mut b);
    CsvConverter.convert(bytes, info, &mut cx).expect("converts")
}

fn table(doc: &Document) -> &Table {
    match &doc.blocks[0] {
        Block::Table(t) => t,
        other => panic!("{other:?}"),
    }
}

fn csv_info() -> StreamInfo {
    StreamInfo::new().with_extension("csv")
}

#[test]
fn header_and_rows_are_separated() {
    let doc = convert(b"name,age\nada,36\ngrace,45\n", &csv_info());
    let t = table(&doc);
    assert_eq!(
        t.header
            .as_ref()
            .map(|h| h.iter().map(Inline::to_plain).collect::<Vec<_>>()),
        Some(vec!["name".to_owned(), "age".to_owned()])
    );
    assert_eq!(t.rows.len(), 2);
}

#[test]
fn all_numeric_first_row_is_data_not_a_header() {
    let doc = convert(b"1,2\n3,4\n", &csv_info());
    let t = table(&doc);
    assert!(t.header.is_none(), "{:?}", t.header);
    assert_eq!(t.rows.len(), 2);
}

#[test]
fn semicolon_delimiters_are_detected() {
    let doc = convert("name;city\nada;london\n".as_bytes(), &csv_info());
    assert_eq!(table(&doc).width(), 2);
}

#[test]
fn tsv_uses_tabs_from_the_extension() {
    let si = StreamInfo::new().with_extension("tsv");
    let doc = convert(b"a\tb\n1\t2\n", &si);
    assert_eq!(table(&doc).width(), 2);
}

#[test]
fn quoted_fields_survive_embedded_delimiters() {
    let doc = convert(b"a,b\n\"x,y\",z\n", &csv_info());
    let t = table(&doc);
    assert_eq!(t.rows[0][0].to_plain(), "x,y");
}

#[test]
fn ragged_rows_are_kept_rather_than_rejected() {
    let doc = convert(b"a,b,c\n1,2\n3,4,5,6\n", &csv_info());
    assert_eq!(table(&doc).rows.len(), 2);
}

#[test]
fn empty_input_yields_no_table() {
    let doc = convert(b"", &csv_info());
    assert!(doc.blocks.is_empty());
}

#[test]
fn row_reading_stops_near_the_cap() {
    let mut src = String::from("n\n");
    for i in 0..5000 {
        src.push_str(&format!("{i}\n"));
    }
    let mut b = Budget::new(Limits {
        max_table_rows: 10,
        ..Limits::default()
    });
    let mut cx = ConvertCx::new(&mut b);
    let doc = CsvConverter
        .convert(src.as_bytes(), &csv_info(), &mut cx)
        .unwrap();
    // Cap plus the one lookahead row that tells the renderer it truncated.
    assert!(table(&doc).rows.len() <= 12, "{}", table(&doc).rows.len());
}

#[test]
fn only_delimited_extensions_are_accepted() {
    let p = Probe::new(b"a,b\n");
    assert!(CsvConverter.accepts(&p, &csv_info()));
    assert!(!CsvConverter.accepts(&p, &StreamInfo::new().with_extension("txt")));
}

//! JSON and notebooks.

use mcpg_markdown_convert::converters::json::{IpynbConverter, JsonConverter};
use mcpg_markdown_convert::{Block, Probe};
use mcpg_markdown_convert::{Budget, ConvertCx, Limits};
use mcpg_markdown_convert::{Converter, Document, StreamInfo};

fn run(c: &dyn Converter, bytes: &[u8], info: &StreamInfo) -> Document {
    let mut b = Budget::new(Limits::default());
    let mut cx = ConvertCx::new(&mut b);
    c.convert(bytes, info, &mut cx).expect("converts")
}

fn json_info() -> StreamInfo {
    StreamInfo::new().with_extension("json")
}

#[test]
fn an_array_of_flat_objects_becomes_a_table() {
    let doc = run(
        &JsonConverter,
        br#"[{"a":1,"b":"x"},{"a":2,"b":"y"}]"#,
        &json_info(),
    );
    match &doc.blocks[0] {
        Block::Table(t) => {
            assert_eq!(t.rows.len(), 2);
            assert_eq!(t.width(), 2);
        }
        other => panic!("{other:?}"),
    }
}

#[test]
fn ragged_objects_union_their_keys() {
    let doc = run(&JsonConverter, br#"[{"a":1},{"b":2}]"#, &json_info());
    match &doc.blocks[0] {
        Block::Table(t) => assert_eq!(t.width(), 2),
        other => panic!("{other:?}"),
    }
}

#[test]
fn nested_json_stays_json() {
    let doc = run(&JsonConverter, br#"[{"a":{"deep":1}}]"#, &json_info());
    match &doc.blocks[0] {
        Block::Code { language, .. } => assert_eq!(language.as_deref(), Some("json")),
        other => panic!("nested data must not be flattened into a table: {other:?}"),
    }
}

#[test]
fn ndjson_is_read_line_by_line() {
    let si = StreamInfo::new().with_extension("ndjson");
    let doc = run(&JsonConverter, b"{\"a\":1}\n\n{\"a\":2}\n", &si);
    match &doc.blocks[0] {
        Block::Table(t) => assert_eq!(t.rows.len(), 2),
        other => panic!("{other:?}"),
    }
}

#[test]
fn malformed_json_reports_the_position() {
    let mut b = Budget::new(Limits::default());
    let mut cx = ConvertCx::new(&mut b);
    let err = JsonConverter
        .convert(b"{not json", &json_info(), &mut cx)
        .unwrap_err();
    assert_eq!(err.code(), "malformed");
}

#[test]
fn ndjson_error_names_the_line() {
    let si = StreamInfo::new().with_extension("ndjson");
    let mut b = Budget::new(Limits::default());
    let mut cx = ConvertCx::new(&mut b);
    let err = JsonConverter
        .convert(b"{\"a\":1}\nnope\n", &si, &mut cx)
        .unwrap_err();
    assert!(err.to_string().contains("line 2"), "{}", err.to_string());
}

// --- notebooks --------------------------------------------------------

fn notebook() -> &'static [u8] {
    // `br##` rather than `br#`: the notebook body contains `"#`, which
    // would close a single-hash raw string.
    br##"{
      "metadata": {"language_info": {"name": "python"}},
      "cells": [
        {"cell_type": "markdown", "source": ["# Analysis\n", "\n", "Some **prose**.\n"]},
        {"cell_type": "code", "source": "print(1)\n", "outputs": [
          {"output_type": "stream", "text": ["1\n"]}
        ]},
        {"cell_type": "code", "source": "boom()", "outputs": [
          {"output_type": "error", "ename": "ValueError", "evalue": "bad"}
        ]}
      ]
    }"##
}

fn ipynb_info() -> StreamInfo {
    StreamInfo::new().with_extension("ipynb")
}

#[test]
fn notebook_markdown_cells_are_not_re_escaped() {
    let doc = run(&IpynbConverter, notebook(), &ipynb_info());
    match &doc.blocks[0] {
        Block::Raw { markdown } => assert!(markdown.contains("**prose**")),
        other => panic!("{other:?}"),
    }
}

#[test]
fn notebook_code_cells_carry_the_kernel_language() {
    let doc = run(&IpynbConverter, notebook(), &ipynb_info());
    let langs: Vec<_> = doc
        .blocks
        .iter()
        .filter_map(|b| match b {
            Block::Code { language, .. } => language.clone(),
            _ => None,
        })
        .collect();
    assert!(langs.contains(&"python".to_owned()), "{langs:?}");
}

#[test]
fn notebook_outputs_are_included() {
    let doc = run(&IpynbConverter, notebook(), &ipynb_info());
    let all = format!("{:?}", doc.blocks);
    assert!(all.contains("ValueError"), "error output missing");
}

#[test]
fn notebook_title_comes_from_the_first_heading() {
    let doc = run(&IpynbConverter, notebook(), &ipynb_info());
    assert_eq!(doc.title.as_deref(), Some("Analysis"));
}

#[test]
fn the_json_converter_stands_aside_for_notebooks() {
    let p = Probe::new(b"{}");
    assert!(!JsonConverter.accepts(&p, &ipynb_info()));
    assert!(IpynbConverter.accepts(&p, &ipynb_info()));
}

#[test]
fn a_notebook_without_cells_is_malformed() {
    let mut b = Budget::new(Limits::default());
    let mut cx = ConvertCx::new(&mut b);
    let err = IpynbConverter
        .convert(b"{\"metadata\":{}}", &ipynb_info(), &mut cx)
        .unwrap_err();
    assert!(err.to_string().contains("cells"), "{}", err.to_string());
}

//! JSON, JSON lines, and Jupyter notebooks.

use serde_json::Value;
use vstd::prelude::*;
use crate::chars;
use crate::converters;
use crate::converters::decode_info;
use crate::converters::csv::cells_of;
use crate::converters::text::{find_hash_line, strip_hashes};
use crate::cx::{ConvertCx, CxV};
use crate::error::{ConvertError, ErrorV};
use crate::ir;
use crate::ir::{Block, BlockV, Document, DocumentV, Inline, SpanV, Table, TableV};
use crate::registry;
use crate::registry::{Converter, PRIORITY_SPECIFIC};
use crate::stream_info::{Probe, ProbeV, StreamInfo, StreamInfoV};
use crate::text;

verus! {

/// `serde_json::Value`, carried through as an opaque value; what it holds is
/// [`json_of`].
#[verifier::external_type_specification]
#[verifier::external_body]
pub struct ExValue(serde_json::Value);

/// A JSON value. Numbers keep their decimal text; objects keep their pairs in
/// the parser's order.
pub enum Json {
    Null,
    Bool(bool),
    Number(String),
    Str(String),
    Array(Vec<Json>),
    Object(Vec<(String, Json)>),
}

/// The value of a [`Json`].
#[verifier::ext_equal]
pub enum JsonV {
    Null,
    Bool(bool),
    Number(Seq<char>),
    Str(Seq<char>),
    Array(Seq<JsonV>),
    Object(Seq<(Seq<char>, JsonV)>),
}

pub open spec fn jsons_view(s: Seq<Json>) -> Seq<JsonV>
    decreases s,
{
    Seq::new(
        s.len(),
        |k: int|
            if 0 <= k < s.len() {
                json_view(s[k])
            } else {
                arbitrary()
            },
    )
}

pub open spec fn members_view(s: Seq<(String, Json)>) -> Seq<(Seq<char>, JsonV)>
    decreases s,
{
    Seq::new(
        s.len(),
        |k: int|
            if 0 <= k < s.len() {
                (s[k].0@, json_view(s[k].1))
            } else {
                arbitrary()
            },
    )
}

pub open spec fn json_view(j: Json) -> JsonV
    decreases j,
{
    match j {
        Json::Null => JsonV::Null,
        Json::Bool(b) => JsonV::Bool(b),
        Json::Number(n) => JsonV::Number(n@),
        Json::Str(s) => JsonV::Str(s@),
        Json::Array(v) => JsonV::Array(jsons_view(v@)),
        Json::Object(v) => JsonV::Object(members_view(v@)),
    }
}

impl View for Json {
    type V = JsonV;

    open spec fn view(&self) -> JsonV {
        json_view(*self)
    }
}

/// What a parsed value holds.
pub uninterp spec fn json_of(v: serde_json::Value) -> JsonV;

/// What parsing a text gives: a value, or a message.
pub uninterp spec fn json_parsed(source: Seq<char>) -> Result<JsonV, Seq<char>>;

/// The indented text of a value, where it can be written.
pub uninterp spec fn json_pretty(v: JsonV) -> Option<Seq<char>>;

/// One level of a parsed value.
pub enum Layer {
    Null,
    Bool(bool),
    Number(String),
    Str(String),
    Array(Vec<Value>),
    Object(Vec<(String, Value)>),
}

pub open spec fn values_of(s: Seq<Value>) -> Seq<JsonV> {
    Seq::new(s.len(), |i: int| json_of(s[i]))
}

pub open spec fn layer_view(l: Layer) -> JsonV {
    match l {
        Layer::Null => JsonV::Null,
        Layer::Bool(b) => JsonV::Bool(b),
        Layer::Number(n) => JsonV::Number(n@),
        Layer::Str(s) => JsonV::Str(s@),
        Layer::Array(v) => JsonV::Array(values_of(v@)),
        Layer::Object(v) => JsonV::Object(
            Seq::new(v@.len(), |i: int| (v@[i].0@, json_of(v@[i].1))),
        ),
    }
}

pub open spec fn parse_view(r: Result<Value, String>) -> Result<JsonV, Seq<char>> {
    match r {
        Ok(v) => Ok(json_of(v)),
        Err(m) => Err(m@),
    }
}

/// `serde_json::from_str`: the value of a text, or the parser's message; a
/// function of the text.
#[verifier::external_body]
fn parse(source: &str) -> (r: Result<Value, String>)
    ensures
        parse_view(r) == json_parsed(source@),
{
    serde_json::from_str(source).map_err(|e| e.to_string())
}

/// Takes one level of a `serde_json::Value` apart, member by member.
#[verifier::external_body]
fn layer(v: &Value) -> (r: Layer)
    ensures
        layer_view(r) == json_of(*v),
{
    match v {
        Value::Null => Layer::Null,
        Value::Bool(b) => Layer::Bool(*b),
        Value::Number(n) => Layer::Number(n.to_string()),
        Value::String(s) => Layer::Str(s.clone()),
        Value::Array(a) => Layer::Array(a.clone()),
        Value::Object(m) => Layer::Object(m.clone().into_iter().collect()),
    }
}

/// `serde_json::Value::Array`: the array of the given values.
#[verifier::external_body]
pub(crate) fn array_of(rows: Vec<Value>) -> (r: Value)
    ensures
        json_of(r) == JsonV::Array(values_of(rows@)),
{
    Value::Array(rows)
}

/// `serde_json::Value::Null`.
#[verifier::external_body]
pub(crate) fn null_value() -> (r: Value)
    ensures
        json_of(r) == JsonV::Null,
{
    Value::Null
}

/// `serde_json::Value::Bool`: the given truth value.
#[verifier::external_body]
pub(crate) fn bool_value(b: bool) -> (r: Value)
    ensures
        json_of(r) == JsonV::Bool(b),
{
    Value::Bool(b)
}

/// `serde_json::Value`'s `From<u64>`: the given number, in its decimal form.
#[verifier::external_body]
pub(crate) fn number_value(n: u64) -> (r: Value)
    ensures
        json_of(r) == JsonV::Number(chars::decimal(n as nat)),
{
    Value::from(n)
}

/// `serde_json::Value::String`: the given text.
#[verifier::external_body]
pub(crate) fn string_value(s: String) -> (r: Value)
    ensures
        json_of(r) == JsonV::Str(s@),
{
    Value::String(s)
}

pub open spec fn value_pairs(s: Seq<(String, Value)>) -> Seq<(Seq<char>, JsonV)> {
    Seq::new(s.len(), |i: int| (s[i].0@, json_of(s[i].1)))
}

/// `serde_json::Map`, a sorted map, collected from pairs: ascending keys, and
/// of each key the last value.
#[verifier::external_body]
pub(crate) fn object_of(pairs: Vec<(String, Value)>) -> (r: Value)
    ensures
        json_of(r) == JsonV::Object(chars::sorted(value_pairs(pairs@))),
{
    Value::Object(pairs.into_iter().collect())
}

/// `serde_json::to_string_pretty`: the indented text of a value, a function of
/// what the value holds.
#[verifier::external_body]
fn pretty(v: &Value) -> (r: Option<String>)
    ensures
        chars::opt(r) == json_pretty(json_of(*v)),
{
    serde_json::to_string_pretty(v).ok()
}

/// A parsed value as the library's own.
pub(crate) fn to_json(v: &Value) -> (r: Json)
    ensures
        r@ == json_of(*v),
    decreases json_of(*v),
{
    match layer(v) {
        Layer::Null => Json::Null,
        Layer::Bool(b) => Json::Bool(b),
        Layer::Number(n) => Json::Number(n),
        Layer::Str(s) => Json::Str(s),
        Layer::Array(items) => {
            let ghost want = values_of(items@);
            let mut out: Vec<Json> = Vec::new();
            let mut i: usize = 0;
            while i < items.len()
                invariant
                    i <= items@.len(),
                    want == values_of(items@),
                    json_of(*v) == JsonV::Array(want),
                    out@.len() == i,
                    forall|k: int| 0 <= k < i ==> json_view(#[trigger] out@[k]) == want[k],
                decreases items@.len() - i,
            {
                proof {
                    assert(want[i as int] == json_of(items@[i as int]));
                    assert(decreases_to!(json_of(*v) => json_of(*v)->Array_0[i as int]));
                }
                let x = to_json(&items[i]);
                out.push(x);
                i += 1;
            }
            assert(jsons_view(out@) =~= want);
            Json::Array(out)
        },
        Layer::Object(pairs) => {
            let ghost want = Seq::new(
                pairs@.len(),
                |i: int| (pairs@[i].0@, json_of(pairs@[i].1)),
            );
            let mut out: Vec<(String, Json)> = Vec::new();
            let mut i: usize = 0;
            while i < pairs.len()
                invariant
                    i <= pairs@.len(),
                    want == Seq::new(
                        pairs@.len(),
                        |i: int| (pairs@[i].0@, json_of(pairs@[i].1)),
                    ),
                    json_of(*v) == JsonV::Object(want),
                    out@.len() == i,
                    forall|k: int|
                        0 <= k < i ==> ((#[trigger] out@[k]).0@, json_view(out@[k].1)) == want[k],
                decreases pairs@.len() - i,
            {
                proof {
                    assert(want[i as int].1 == json_of(pairs@[i as int].1));
                    assert(decreases_to!(json_of(*v) => json_of(*v)->Object_0[i as int].1));
                }
                let x = to_json(&pairs[i].1);
                out.push((pairs[i].0.clone(), x));
                i += 1;
            }
            assert(members_view(out@) =~= want);
            Json::Object(out)
        },
    }
}

impl JsonV {
    /// The member of an object.
    pub open spec fn get(self, key: Seq<char>) -> Option<JsonV> {
        match self {
            JsonV::Object(m) => member(m, key),
            _ => None,
        }
    }

    pub open spec fn as_str(self) -> Option<Seq<char>> {
        match self {
            JsonV::Str(s) => Some(s),
            _ => None,
        }
    }

    pub open spec fn is_scalar(self) -> bool {
        !(self is Array) && !(self is Object)
    }
}

/// The value of the first pair with this key.
pub open spec fn member(m: Seq<(Seq<char>, JsonV)>, key: Seq<char>) -> Option<JsonV>
    decreases m.len(),
{
    if m.len() == 0 {
        None
    } else if m[0].0 == key {
        Some(m[0].1)
    } else {
        member(m.skip(1), key)
    }
}

pub open spec fn opt_get(j: Option<JsonV>, key: Seq<char>) -> Option<JsonV> {
    match j {
        Some(v) => v.get(key),
        None => None,
    }
}

pub open spec fn opt_str(j: Option<JsonV>) -> Option<Seq<char>> {
    match j {
        Some(v) => v.as_str(),
        None => None,
    }
}

pub open spec fn opt_view(j: Option<&Json>) -> Option<JsonV> {
    match j {
        Some(v) => Some(v@),
        None => None,
    }
}

/// The member two levels down.
pub open spec fn path2(j: JsonV, a: Seq<char>, b: Seq<char>) -> Option<JsonV> {
    opt_get(j.get(a), b)
}

/// The member three levels down.
pub open spec fn path3(j: JsonV, a: Seq<char>, b: Seq<char>, c: Seq<char>) -> Option<JsonV> {
    opt_get(path2(j, a, b), c)
}

impl Json {
    /// The member of an object.
    pub fn get(&self, key: &str) -> (r: Option<&Json>)
        ensures
            opt_view(r) == self@.get(key@),
    {
        match self {
            Json::Object(m) => find_member(m, key),
            _ => None,
        }
    }

    pub fn as_str(&self) -> (r: Option<&str>)
        ensures
            r is Some == self@.as_str() is Some,
            r matches Some(s) ==> self@.as_str() == Some(s@),
    {
        match self {
            Json::Str(s) => Some(s.as_str()),
            _ => None,
        }
    }

    fn is_scalar(&self) -> (r: bool)
        ensures
            r == self@.is_scalar(),
    {
        match self {
            Json::Array(_) => false,
            Json::Object(_) => false,
            _ => true,
        }
    }
}

fn find_member<'a>(m: &'a Vec<(String, Json)>, key: &str) -> (r: Option<&'a Json>)
    ensures
        opt_view(r) == member(members_view(m@), key@),
{
    let ghost v = members_view(m@);
    let mut i: usize = 0;
    assert(v.skip(0) =~= v);
    while i < m.len()
        invariant
            i <= m@.len(),
            v == members_view(m@),
            member(v, key@) == member(v.skip(i as int), key@),
        decreases m@.len() - i,
    {
        assert(v.skip(i as int)[0] == (m@[i as int].0@, json_view(m@[i as int].1)));
        if text::eq(&m[i].0, key) {
            return Some(&m[i].1);
        }
        assert(v.skip(i as int).skip(1) =~= v.skip(i + 1));
        i += 1;
    }
    None
}

fn get_in<'a>(j: Option<&'a Json>, key: &str) -> (r: Option<&'a Json>)
    ensures
        opt_view(r) == opt_get(opt_view(j), key@),
{
    match j {
        Some(v) => v.get(key),
        None => None,
    }
}

fn str_in(j: Option<&Json>) -> (r: Option<String>)
    ensures
        chars::opt(r) == opt_str(opt_view(j)),
{
    match j {
        Some(v) => match v.as_str() {
            Some(s) => Some(s.to_owned()),
            None => None,
        },
        None => None,
    }
}

/// JSON and JSON lines.
pub struct JsonConverter;

pub open spec fn json_takes(probe: ProbeV, info: StreamInfoV) -> bool {
    probe.looks_textual() && !info.is_ext("ipynb"@) && (info.is_mime("application/json"@)
        || info.is_mime("application/x-ndjson"@) || info.is_ext("json"@) || info.is_ext("jsonl"@)
        || info.is_ext("ndjson"@))
}

pub open spec fn is_lines(info: StreamInfoV) -> bool {
    info.is_ext("jsonl"@) || info.is_ext("ndjson"@) || info.is_mime("application/x-ndjson"@)
}

pub open spec fn json_fault(message: Seq<char>) -> ErrorV {
    ErrorV::Malformed { format: "json"@, message }
}

/// The values of the lines that are not blank, or the fault of the first line
/// that does not parse.
pub open spec fn lines_values(lines: Seq<Seq<char>>) -> Result<Seq<JsonV>, ErrorV>
    decreases lines.len(),
{
    if lines.len() == 0 {
        Ok(seq![])
    } else {
        match lines_values(lines.drop_last()) {
            Err(e) => Err(e),
            Ok(rows) => if chars::is_blank(lines.last()) {
                Ok(rows)
            } else {
                match json_parsed(lines.last()) {
                    Ok(v) => Ok(rows.push(v)),
                    Err(m) => Err(
                        json_fault("line "@ + chars::decimal(lines.len()) + ": "@ + m),
                    ),
                }
            },
        }
    }
}

/// The value of an input.
pub open spec fn json_value(source: Seq<char>, by_line: bool) -> Result<JsonV, ErrorV> {
    if by_line {
        match lines_values(chars::lines(source)) {
            Ok(rows) => Ok(JsonV::Array(rows)),
            Err(e) => Err(e),
        }
    } else {
        match json_parsed(source) {
            Ok(v) => Ok(v),
            Err(m) => Err(json_fault(m)),
        }
    }
}

/// The columns with those of one more object; nothing where a value is no
/// scalar.
pub open spec fn add_columns(
    cols: Option<Seq<Seq<char>>>,
    pairs: Seq<(Seq<char>, JsonV)>,
) -> Option<Seq<Seq<char>>>
    decreases pairs.len(),
{
    if pairs.len() == 0 {
        cols
    } else {
        match add_columns(cols, pairs.drop_last()) {
            Some(c) => if !pairs.last().1.is_scalar() {
                None
            } else if c.contains(pairs.last().0) {
                Some(c)
            } else {
                Some(c.push(pairs.last().0))
            },
            None => None,
        }
    }
}

/// The columns of an array of flat objects, in order of first appearance;
/// nothing where an item is something else.
pub open spec fn columns(items: Seq<JsonV>) -> Option<Seq<Seq<char>>>
    decreases items.len(),
{
    if items.len() == 0 {
        Some(seq![])
    } else {
        match items.last() {
            JsonV::Object(m) => add_columns(columns(items.drop_last()), m),
            _ => None,
        }
    }
}

/// The text of a scalar; nothing and null are empty.
pub open spec fn scalar_text(v: Option<JsonV>) -> Seq<char> {
    match v {
        Some(JsonV::Str(s)) => s,
        Some(JsonV::Number(n)) => n,
        Some(JsonV::Bool(b)) => if b {
            "true"@
        } else {
            "false"@
        },
        _ => seq![],
    }
}

pub open spec fn json_row(item: JsonV, cols: Seq<Seq<char>>) -> Seq<Seq<SpanV>> {
    Seq::new(cols.len(), |i: int| seq![SpanV::Text(scalar_text(item.get(cols[i])))])
}

/// An array of flat objects as a table, unless it is too long for one.
pub open spec fn spec_value_to_table(v: JsonV, max_rows: nat) -> Option<TableV> {
    match v {
        JsonV::Array(items) => if items.len() == 0 || items.len() > 2 * max_rows {
            None
        } else {
            match columns(items) {
                Some(cols) => if cols.len() == 0 {
                    None
                } else {
                    let n = if items.len() > max_rows + 1 {
                        max_rows + 1
                    } else {
                        items.len()
                    };
                    Some(
                        TableV {
                            caption: None,
                            header: Some(converters::csv::text_cells(cols)),
                            rows: Seq::new(n, |i: int| json_row(items[i], cols)),
                        },
                    )
                },
                None => None,
            }
        },
        _ => None,
    }
}

/// What a JSON input becomes: a table where its value is one, else its text.
pub open spec fn json_document(
    source: Seq<char>,
    value: Result<JsonV, ErrorV>,
    max_rows: nat,
) -> Result<DocumentV, ErrorV> {
    match value {
        Err(e) => Err(e),
        Ok(v) => Ok(
            ir::empty_document().pushed(
                match spec_value_to_table(v, max_rows) {
                    Some(t) => BlockV::Table(t),
                    None => BlockV::Code {
                        language: Some("json"@),
                        text: match json_pretty(v) {
                            Some(p) => p,
                            None => source,
                        },
                    },
                },
            ),
        ),
    }
}

fn has_text(v: &Vec<String>, s: &str) -> (r: bool)
    ensures
        r == chars::texts(v@).contains(s@),
{
    let ghost t = chars::texts(v@);
    let mut i: usize = 0;
    while i < v.len()
        invariant
            i <= v@.len(),
            t == chars::texts(v@),
            forall|k: int| 0 <= k < i ==> t[k] != s@,
        decreases v@.len() - i,
    {
        if text::eq(&v[i], s) {
            assert(t[i as int] == s@);
            return true;
        }
        i += 1;
    }
    false
}

spec fn opt_texts(c: Option<Vec<String>>) -> Option<Seq<Seq<char>>> {
    match c {
        Some(v) => Some(chars::texts(v@)),
        None => None,
    }
}

fn extend_columns(cols: Option<Vec<String>>, pairs: &Vec<(String, Json)>) -> (r: Option<
    Vec<String>,
>)
    ensures
        opt_texts(r) == add_columns(opt_texts(cols), members_view(pairs@)),
{
    let ghost v = members_view(pairs@);
    let ghost c0 = opt_texts(cols);
    let mut cols = cols;
    let mut i: usize = 0;
    assert(v.take(0) =~= seq![]);
    while i < pairs.len()
        invariant
            i <= pairs@.len(),
            v == members_view(pairs@),
            opt_texts(cols) == add_columns(c0, v.take(i as int)),
        decreases pairs@.len() - i,
    {
        proof {
            assert(v.take(i + 1).drop_last() =~= v.take(i as int));
            assert(v.take(i + 1).last() == (pairs@[i as int].0@, json_view(pairs@[i as int].1)));
        }
        cols = match cols {
            Some(c) => {
                let mut c = c;
                if !pairs[i].1.is_scalar() {
                    None
                } else if has_text(&c, &pairs[i].0) {
                    Some(c)
                } else {
                    let name = pairs[i].0.clone();
                    proof {
                        chars::lemma_texts_push(c@, name);
                    }
                    c.push(name);
                    Some(c)
                }
            },
            None => None,
        };
        i += 1;
    }
    assert(v.take(v.len() as int) =~= v);
    cols
}

proof fn lemma_columns_none(items: Seq<JsonV>, n: int)
    requires
        0 <= n <= items.len(),
        columns(items.take(n)) is None,
    ensures
        columns(items) is None,
    decreases items.len(),
{
    if n == items.len() {
        assert(items.take(n) =~= items);
    } else {
        assert(items.drop_last().take(n) =~= items.take(n));
        lemma_columns_none(items.drop_last(), n);
        match items.last() {
            JsonV::Object(m) => lemma_add_none(m),
            _ => {},
        }
    }
}

proof fn lemma_add_none(pairs: Seq<(Seq<char>, JsonV)>)
    ensures
        add_columns(None, pairs) is None,
    decreases pairs.len(),
{
    if pairs.len() > 0 {
        lemma_add_none(pairs.drop_last());
    }
}

fn find_columns(items: &Vec<Json>) -> (r: Option<Vec<String>>)
    ensures
        opt_texts(r) == columns(jsons_view(items@)),
{
    let ghost v = jsons_view(items@);
    let mut cols: Option<Vec<String>> = Some(Vec::new());
    assert(opt_texts(cols) == columns(v.take(0))) by {
        assert(chars::texts(cols->Some_0@) =~= seq![]);
    }
    let mut i: usize = 0;
    while i < items.len()
        invariant
            i <= items@.len(),
            v == jsons_view(items@),
            opt_texts(cols) == columns(v.take(i as int)),
        decreases items@.len() - i,
    {
        proof {
            assert(v.take(i + 1).drop_last() =~= v.take(i as int));
            assert(v.take(i + 1).last() == json_view(items@[i as int]));
        }
        match &items[i] {
            Json::Object(m) => {
                cols = extend_columns(cols, m);
            },
            _ => {
                proof {
                    lemma_columns_none(v, i + 1);
                }
                return None;
            },
        }
        i += 1;
    }
    assert(v.take(v.len() as int) =~= v);
    cols
}

fn scalar_to_string(v: Option<&Json>) -> (r: String)
    ensures
        r@ == scalar_text(opt_view(v)),
{
    match v {
        Some(Json::Str(s)) => s.clone(),
        Some(Json::Number(n)) => n.clone(),
        Some(Json::Bool(b)) => if *b {
            "true".to_owned()
        } else {
            "false".to_owned()
        },
        _ => String::new(),
    }
}

fn row_of(item: &Json, cols: &Vec<String>) -> (r: Vec<Inline>)
    ensures
        ir::cells_view(r@) == json_row(item@, chars::texts(cols@)),
{
    let mut out: Vec<Inline> = Vec::new();
    let mut i: usize = 0;
    let ghost want = json_row(item@, chars::texts(cols@));
    while i < cols.len()
        invariant
            i <= cols@.len(),
            want == json_row(item@, chars::texts(cols@)),
            out@.len() == i,
            forall|k: int| 0 <= k < i ==> (#[trigger] out@[k])@ == want[k],
        decreases cols@.len() - i,
    {
        let t = scalar_to_string(item.get(&cols[i]));
        out.push(Inline::text(t));
        i += 1;
    }
    assert(ir::cells_view(out@) =~= want);
    out
}

/// An array of flat objects as a table, unless it is too long for one.
pub fn value_to_table(value: &Json, max_rows: u32) -> (r: Option<Table>)
    ensures
        r is Some == spec_value_to_table(value@, max_rows as nat) is Some,
        r matches Some(t) ==> spec_value_to_table(value@, max_rows as nat) == Some(t@),
{
    match value {
        Json::Array(items) => {
            let ghost v = jsons_view(items@);
            if items.len() == 0 || items.len() as u128 > max_rows as u128 * 2 {
                return None;
            }
            match find_columns(items) {
                Some(cols) => {
                    if cols.len() == 0 {
                        return None;
                    }
                    let cap: u64 = max_rows as u64 + 1;
                    let n: usize = if items.len() as u64 > cap {
                        cap as usize
                    } else {
                        items.len()
                    };
                    let ghost c = chars::texts(cols@);
                    let ghost want = Seq::new(n as nat, |i: int| json_row(v[i], c));
                    let mut rows: Vec<Vec<Inline>> = Vec::new();
                    let mut i: usize = 0;
                    while i < n
                        invariant
                            i <= n <= items@.len(),
                            v == jsons_view(items@),
                            c == chars::texts(cols@),
                            rows@.len() == i,
                            forall|k: int|
                                0 <= k < i ==> ir::cells_view((#[trigger] rows@[k])@) == json_row(
                                    v[k],
                                    c,
                                ),
                        decreases n - i,
                    {
                        let row = row_of(&items[i], &cols);
                        rows.push(row);
                        i += 1;
                    }
                    assert(ir::rows_view(rows@) =~= want);
                    Some(Table { caption: None, header: Some(cells_of(&cols)), rows })
                },
                None => None,
            }
        },
        _ => None,
    }
}

spec fn nd_view(r: Result<Vec<Value>, ConvertError>) -> Result<Seq<JsonV>, ErrorV> {
    match r {
        Ok(v) => Ok(values_of(v@)),
        Err(e) => Err(e@),
    }
}

proof fn lemma_lines_err(lines: Seq<Seq<char>>, n: int)
    requires
        0 <= n <= lines.len(),
        lines_values(lines.take(n)) is Err,
    ensures
        lines_values(lines) == lines_values(lines.take(n)),
    decreases lines.len(),
{
    if n == lines.len() {
        assert(lines.take(n) =~= lines);
    } else {
        assert(lines.drop_last().take(n) =~= lines.take(n));
        lemma_lines_err(lines.drop_last(), n);
    }
}

fn parse_lines(source: &str) -> (r: Result<Vec<Value>, ConvertError>)
    ensures
        nd_view(r) == lines_values(chars::lines(source@)),
{
    let ls = text::lines(source);
    let ghost v = chars::texts(ls@);
    let mut rows: Vec<Value> = Vec::new();
    let mut i: usize = 0;
    assert(values_of(rows@) =~= seq![]);
    while i < ls.len()
        invariant
            i <= ls@.len(),
            v == chars::texts(ls@),
            v == chars::lines(source@),
            lines_values(v.take(i as int)) == Ok::<Seq<JsonV>, ErrorV>(values_of(rows@)),
        decreases ls@.len() - i,
    {
        proof {
            assert(v.take(i + 1).drop_last() =~= v.take(i as int));
            assert(v.take(i + 1).last() == ls@[i as int]@);
        }
        if !text::is_blank(&ls[i]) {
            match parse(&ls[i]) {
                Ok(x) => {
                    let ghost before = rows@;
                    rows.push(x);
                    assert(values_of(rows@) =~= values_of(before).push(json_of(x)));
                },
                Err(m) => {
                    let n = text::decimal(i as u64 + 1);
                    let mut message = text::cat3("line ", &n, ": ");
                    message.append(m.as_str());
                    proof {
                        lemma_lines_err(v, i + 1);
                    }
                    return Err(ConvertError::Malformed { format: "json", message });
                },
            }
        }
        i += 1;
    }
    assert(v.take(v.len() as int) =~= v);
    Ok(rows)
}

fn read_value(source: &str, by_line: bool) -> (r: Result<Value, ConvertError>)
    ensures
        match r {
            Ok(v) => json_value(source@, by_line) == Ok::<JsonV, ErrorV>(json_of(v)),
            Err(e) => json_value(source@, by_line) == Err::<JsonV, ErrorV>(e@),
        },
{
    if by_line {
        match parse_lines(source) {
            Ok(rows) => Ok(array_of(rows)),
            Err(e) => Err(e),
        }
    } else {
        match parse(source) {
            Ok(v) => Ok(v),
            Err(m) => Err(ConvertError::Malformed { format: "json", message: m }),
        }
    }
}

impl Converter for JsonConverter {
    open spec fn named(&self) -> Seq<char> {
        "json"@
    }

    open spec fn ranked(&self) -> i32 {
        0
    }

    open spec fn takes(&self, probe: ProbeV, info: StreamInfoV) -> bool {
        json_takes(probe, info)
    }

    open spec fn converts(
        &self,
        bytes: Seq<u8>,
        info: StreamInfoV,
        pre: CxV,
        post: CxV,
        r: Result<DocumentV, ErrorV>,
    ) -> bool {
        let s = converters::spec_decode_text(bytes, info.charset);
        post == pre && r == json_document(
            s,
            json_value(s, is_lines(info)),
            pre.limits.max_table_rows as nat,
        )
    }

    fn name(&self) -> (r: &'static str) {
        "json"
    }

    fn priority(&self) -> (r: i32) {
        PRIORITY_SPECIFIC
    }

    fn accepts(&self, probe: &Probe<'_>, info: &StreamInfo) -> (r: bool) {
        probe.looks_textual() && !info.is_ext("ipynb") && (info.is_mime("application/json")
            || info.is_mime("application/x-ndjson") || info.is_ext("json") || info.is_ext("jsonl")
            || info.is_ext("ndjson"))
    }

    fn convert(&self, bytes: &[u8], info: &StreamInfo, cx: &mut ConvertCx<'_>) -> (r: Result<
        Document,
        ConvertError,
    >) {
        let s = decode_info(bytes, &info.charset);
        let by_line: bool = info.is_ext("jsonl") || info.is_ext("ndjson") || info.is_mime(
            "application/x-ndjson",
        );
        let value = match read_value(&s, by_line) {
            Ok(v) => v,
            Err(e) => {
                return Err(e);
            },
        };
        let json = to_json(&value);
        let mut doc = Document::new();
        match value_to_table(&json, cx.limits().max_table_rows) {
            Some(t) => doc.push(Block::Table(t)),
            None => {
                let body = match pretty(&value) {
                    Some(p) => p,
                    None => s,
                };
                doc.push(Block::Code { language: Some("json".to_owned()), text: body });
            },
        }
        Ok(doc)
    }
}

/// Jupyter notebooks.
pub struct IpynbConverter;

pub open spec fn ipynb_takes(probe: ProbeV, info: StreamInfoV) -> bool {
    probe.looks_textual() && (info.is_ext("ipynb"@) || info.is_mime("application/x-ipynb+json"@))
}

pub open spec fn notebook_language(nb: JsonV) -> Seq<char> {
    let spec_lang = path3(nb, "metadata"@, "kernelspec"@, "language"@);
    let found = if spec_lang is Some {
        spec_lang
    } else {
        path3(nb, "metadata"@, "language_info"@, "name"@)
    };
    match opt_str(found) {
        Some(s) => s,
        None => "python"@,
    }
}

pub open spec fn notebook_title(nb: JsonV) -> Option<Seq<char>> {
    match opt_str(path2(nb, "metadata"@, "title"@)) {
        Some(t) => Some(t),
        None => opt_str(path3(nb, "metadata"@, "kernelspec"@, "display_name"@)),
    }
}

/// The strings of an array, one after the other.
pub open spec fn concat_strs(items: Seq<JsonV>) -> Seq<char>
    decreases items.len(),
{
    if items.len() == 0 {
        seq![]
    } else {
        concat_strs(items.drop_last()) + (match items.last() {
            JsonV::Str(s) => s,
            _ => seq![],
        })
    }
}

/// The strings among the items.
pub open spec fn strs_of(items: Seq<JsonV>) -> Seq<Seq<char>>
    decreases items.len(),
{
    if items.len() == 0 {
        seq![]
    } else {
        let t = strs_of(items.drop_last());
        match items.last() {
            JsonV::Str(s) => t.push(s),
            _ => t,
        }
    }
}

/// A multi-line string: written as one, or as an array of its lines.
pub open spec fn spec_join_source(v: Option<JsonV>) -> Seq<char> {
    match v {
        Some(JsonV::Str(s)) => s,
        Some(JsonV::Array(items)) => concat_strs(items),
        _ => seq![],
    }
}

pub open spec fn or_default(v: Option<Seq<char>>, d: Seq<char>) -> Seq<char> {
    match v {
        Some(s) => s,
        None => d,
    }
}

/// The text of one cell output.
pub open spec fn output_text(o: JsonV) -> Seq<char> {
    match opt_str(o.get("output_type"@)) {
        Some(t) => if t == "stream"@ {
            spec_join_source(o.get("text"@))
        } else if t == "execute_result"@ || t == "display_data"@ {
            let plain = spec_join_source(path2(o, "data"@, "text/plain"@));
            if chars::is_blank(plain) && path2(o, "data"@, "image/png"@) is Some {
                "[image output]"@
            } else {
                plain
            }
        } else if t == "error"@ {
            match o.get("traceback"@) {
                Some(JsonV::Array(items)) => chars::join(strs_of(items), "\n"@),
                _ => or_default(opt_str(o.get("ename"@)), "error"@) + ": "@ + or_default(
                    opt_str(o.get("evalue"@)),
                    seq![],
                ),
            }
        } else {
            seq![]
        },
        None => seq![],
    }
}

pub open spec fn output_blocks(outs: Seq<JsonV>) -> Seq<BlockV>
    decreases outs.len(),
{
    if outs.len() == 0 {
        seq![]
    } else {
        let t = output_blocks(outs.drop_last());
        let s = output_text(outs.last());
        if chars::is_blank(s) {
            t
        } else {
            t.push(BlockV::Code { language: Some("text"@), text: chars::trim_end(s) })
        }
    }
}

pub open spec fn spec_outputs(cell: JsonV) -> Seq<BlockV> {
    match cell.get("outputs"@) {
        Some(JsonV::Array(outs)) => output_blocks(outs),
        _ => seq![],
    }
}

/// The blocks of one cell.
pub open spec fn cell_blocks(cell: JsonV, language: Seq<char>) -> Seq<BlockV> {
    let source = spec_join_source(cell.get("source"@));
    match opt_str(cell.get("cell_type"@)) {
        Some(t) => if t == "markdown"@ {
            if chars::is_blank(source) {
                seq![]
            } else {
                seq![BlockV::Raw { markdown: chars::trim_end(source) }]
            }
        } else if t == "code"@ {
            (if chars::is_blank(source) {
                Seq::<BlockV>::empty()
            } else {
                seq![BlockV::Code { language: Some(language), text: source }]
            }) + spec_outputs(cell)
        } else if t == "raw"@ {
            if chars::is_blank(source) {
                seq![]
            } else {
                seq![BlockV::Code { language: None, text: source }]
            }
        } else {
            seq![]
        },
        None => seq![],
    }
}

pub open spec fn cells_blocks(cells: Seq<JsonV>, language: Seq<char>) -> Seq<BlockV>
    decreases cells.len(),
{
    if cells.len() == 0 {
        seq![]
    } else {
        cells_blocks(cells.drop_last(), language) + cell_blocks(cells.last(), language)
    }
}

/// The first top-level heading in a Markdown cell.
pub open spec fn spec_first_heading(blocks: Seq<BlockV>) -> Option<Seq<char>>
    decreases blocks.len(),
{
    if blocks.len() == 0 {
        None
    } else {
        match blocks[0] {
            BlockV::Raw { markdown } => match converters::text::hash_line(chars::lines(markdown)) {
                Some(l) => Some(converters::text::heading_text(l)),
                None => spec_first_heading(blocks.skip(1)),
            },
            _ => spec_first_heading(blocks.skip(1)),
        }
    }
}

pub open spec fn notebook_fault(message: Seq<char>) -> ErrorV {
    ErrorV::Malformed { format: "ipynb"@, message }
}

/// What a notebook becomes.
pub open spec fn notebook_document(value: Result<JsonV, Seq<char>>) -> Result<DocumentV, ErrorV> {
    match value {
        Err(m) => Err(notebook_fault(m)),
        Ok(nb) => {
            let language = notebook_language(nb);
            let base = DocumentV {
                metadata: ir::MetadataV { language: Some(language), ..ir::empty_metadata() },
                ..ir::empty_document()
            };
            let titled = match notebook_title(nb) {
                Some(t) => base.titled(t),
                None => base,
            };
            match nb.get("cells"@) {
                Some(JsonV::Array(cells)) => {
                    let d = titled.extended(cells_blocks(cells, language));
                    Ok(
                        if d.title is None {
                            DocumentV { title: spec_first_heading(d.blocks), ..d }
                        } else {
                            d
                        },
                    )
                },
                _ => Err(notebook_fault("no `cells` array"@)),
            }
        },
    }
}

fn join_source(v: Option<&Json>) -> (r: String)
    ensures
        r@ == spec_join_source(opt_view(v)),
{
    match v {
        Some(Json::Str(s)) => s.clone(),
        Some(Json::Array(items)) => {
            let ghost js = jsons_view(items@);
            let mut out = String::new();
            let mut i: usize = 0;
            while i < items.len()
                invariant
                    i <= items@.len(),
                    js == jsons_view(items@),
                    out@ == concat_strs(js.take(i as int)),
                decreases items@.len() - i,
            {
                proof {
                    assert(js.take(i + 1).drop_last() =~= js.take(i as int));
                    assert(js.take(i + 1).last() == json_view(items@[i as int]));
                    assert(out@ + seq![] =~= out@);
                }
                if let Json::Str(s) = &items[i] {
                    out.append(s.as_str());
                }
                i += 1;
            }
            assert(js.take(js.len() as int) =~= js);
            out
        },
        _ => String::new(),
    }
}

fn join_strs(items: &Vec<Json>) -> (r: String)
    ensures
        r@ == chars::join(strs_of(jsons_view(items@)), "\n"@),
{
    let ghost js = jsons_view(items@);
    let mut parts: Vec<String> = Vec::new();
    let mut i: usize = 0;
    assert(chars::texts(parts@) =~= seq![]);
    while i < items.len()
        invariant
            i <= items@.len(),
            js == jsons_view(items@),
            chars::texts(parts@) == strs_of(js.take(i as int)),
        decreases items@.len() - i,
    {
        proof {
            assert(js.take(i + 1).drop_last() =~= js.take(i as int));
            assert(js.take(i + 1).last() == json_view(items@[i as int]));
        }
        if let Json::Str(s) = &items[i] {
            let c = s.clone();
            proof {
                chars::lemma_texts_push(parts@, c);
            }
            parts.push(c);
        }
        i += 1;
    }
    assert(js.take(js.len() as int) =~= js);
    text::join(&parts, "\n")
}

fn text_of_output(o: &Json) -> (r: String)
    ensures
        r@ == output_text(o@),
{
    match str_in(o.get("output_type")) {
        Some(t) => {
            if text::eq(&t, "stream") {
                join_source(o.get("text"))
            } else if text::eq(&t, "execute_result") || text::eq(&t, "display_data") {
                let plain = join_source(get_in(o.get("data"), "text/plain"));
                if text::is_blank(&plain) && get_in(o.get("data"), "image/png").is_some() {
                    "[image output]".to_owned()
                } else {
                    plain
                }
            } else if text::eq(&t, "error") {
                match o.get("traceback") {
                    Some(Json::Array(items)) => join_strs(items),
                    _ => {
                        let a = match str_in(o.get("ename")) {
                            Some(s) => s,
                            None => "error".to_owned(),
                        };
                        let b = match str_in(o.get("evalue")) {
                            Some(s) => s,
                            None => String::new(),
                        };
                        text::cat3(&a, ": ", &b)
                    },
                }
            } else {
                String::new()
            }
        },
        None => String::new(),
    }
}

fn outputs(cell: &Json) -> (r: Vec<Block>)
    ensures
        ir::blocks_view(r@) == spec_outputs(cell@),
{
    let mut blocks: Vec<Block> = Vec::new();
    assert(ir::blocks_view(blocks@) =~= seq![]);
    match cell.get("outputs") {
        Some(Json::Array(outs)) => {
            let ghost js = jsons_view(outs@);
            let mut i: usize = 0;
            while i < outs.len()
                invariant
                    i <= outs@.len(),
                    js == jsons_view(outs@),
                    ir::blocks_view(blocks@) == output_blocks(js.take(i as int)),
                decreases outs@.len() - i,
            {
                proof {
                    assert(js.take(i + 1).drop_last() =~= js.take(i as int));
                    assert(js.take(i + 1).last() == json_view(outs@[i as int]));
                }
                let t = text_of_output(&outs[i]);
                if !text::is_blank(&t) {
                    let b = Block::Code {
                        language: Some("text".to_owned()),
                        text: text::trim_end(&t),
                    };
                    proof {
                        ir::lemma_blocks_push(blocks@, b);
                    }
                    blocks.push(b);
                }
                i += 1;
            }
            assert(js.take(js.len() as int) =~= js);
        },
        _ => {},
    }
    blocks
}

fn push_cell(doc: &mut Document, cell: &Json, language: &str)
    ensures
        final(doc)@ == old(doc)@.extended(cell_blocks(cell@, language@)),
{
    let ghost b0 = doc@.blocks;
    let source = join_source(cell.get("source"));
    let blank: bool = text::is_blank(&source);
    if let Some(t) = str_in(cell.get("cell_type")) {
        if text::eq(&t, "markdown") {
            if !blank {
                doc.push(Block::Raw { markdown: text::trim_end(&source) });
            }
        } else if text::eq(&t, "code") {
            if !blank {
                doc.push(Block::Code { language: Some(language.to_owned()), text: source });
            }
            doc.push_all(outputs(cell));
        } else if text::eq(&t, "raw") {
            if !blank {
                doc.push(Block::Code { language: None, text: source });
            }
        }
    }
    assert(doc@.blocks =~= b0 + cell_blocks(cell@, language@));
}

fn first_heading(blocks: &Vec<Block>) -> (r: Option<String>)
    ensures
        chars::opt(r) == spec_first_heading(ir::blocks_view(blocks@)),
{
    let ghost v = ir::blocks_view(blocks@);
    let mut i: usize = 0;
    assert(v.skip(0) =~= v);
    while i < blocks.len()
        invariant
            i <= blocks@.len(),
            v == ir::blocks_view(blocks@),
            spec_first_heading(v) == spec_first_heading(v.skip(i as int)),
        decreases blocks@.len() - i,
    {
        assert(v.skip(i as int)[0] == ir::block_view(blocks@[i as int]));
        assert(v.skip(i as int).skip(1) =~= v.skip(i + 1));
        if let Block::Raw { markdown } = &blocks[i] {
            if let Some(l) = find_hash_line(markdown) {
                return Some(strip_hashes(&l));
            }
        }
        i += 1;
    }
    None
}

/// There is a cell, before which the clock is read.
pub open spec fn has_cells(nb: JsonV) -> bool {
    nb.get("cells"@) matches Some(JsonV::Array(cells)) && cells.len() > 0
}

/// What a notebook becomes. Only the clock can stop a notebook that has cells.
pub fn notebook(nb: &Json, cx: &ConvertCx<'_>) -> (r: Result<Document, ConvertError>)
    ensures
        registry::late(cx@, registry::outcome(r)) && has_cells(nb@) || registry::outcome(r)
            == notebook_document(
            Ok::<JsonV, Seq<char>>(nb@),
        ),
{
    let mut doc = Document::new();
    let kernel = get_in(nb.get("metadata"), "kernelspec");
    let stated = get_in(kernel, "language");
    let found = if stated.is_some() {
        stated
    } else {
        get_in(get_in(nb.get("metadata"), "language_info"), "name")
    };
    let language = match str_in(found) {
        Some(l) => l,
        None => "python".to_owned(),
    };
    doc.metadata.language = Some(language.clone());
    let title = match str_in(get_in(nb.get("metadata"), "title")) {
        Some(t) => Some(t),
        None => str_in(get_in(kernel, "display_name")),
    };
    if let Some(t) = title {
        doc = doc.with_title(t);
    }
    let ghost d0 = doc@;
    match nb.get("cells") {
        Some(Json::Array(cells)) => {
            let ghost js = jsons_view(cells@);
            let mut i: usize = 0;
            assert(doc@ =~= d0.extended(cells_blocks(js.take(0), language@)));
            while i < cells.len()
                invariant
                    i <= cells@.len(),
                    js == jsons_view(cells@),
                    nb@.get("cells"@) == Some(JsonV::Array(js)),
                    doc@ == d0.extended(cells_blocks(js.take(i as int), language@)),
                decreases cells@.len() - i,
            {
                proof {
                    assert(js.take(i + 1).drop_last() =~= js.take(i as int));
                    assert(js.take(i + 1).last() == json_view(cells@[i as int]));
                }
                if let Err(e) = cx.budget().check_deadline() {
                    return Err(e);
                }
                push_cell(&mut doc, &cells[i], &language);
                i += 1;
                assert(doc@.blocks =~= d0.blocks + cells_blocks(js.take(i as int), language@));
            }
            assert(js.take(js.len() as int) =~= js);
            if doc.title.is_none() {
                doc.title = first_heading(&doc.blocks);
            }
            Ok(doc)
        },
        _ => Err(
            ConvertError::Malformed {
                format: "ipynb",
                message: "no `cells` array".to_owned(),
            },
        ),
    }
}

impl Converter for IpynbConverter {
    open spec fn named(&self) -> Seq<char> {
        "ipynb"@
    }

    open spec fn ranked(&self) -> i32 {
        (0 - 1) as i32
    }

    open spec fn takes(&self, probe: ProbeV, info: StreamInfoV) -> bool {
        ipynb_takes(probe, info)
    }

    open spec fn converts(
        &self,
        bytes: Seq<u8>,
        info: StreamInfoV,
        pre: CxV,
        post: CxV,
        r: Result<DocumentV, ErrorV>,
    ) -> bool {
        let nb = json_parsed(converters::spec_decode_text(bytes, info.charset));
        post == pre && (registry::late(pre, r) && (nb matches Ok(j) && has_cells(j)) || r
            == notebook_document(nb))
    }

    fn name(&self) -> (r: &'static str) {
        "ipynb"
    }

    fn priority(&self) -> (r: i32) {
        PRIORITY_SPECIFIC - 1
    }

    fn accepts(&self, probe: &Probe<'_>, info: &StreamInfo) -> (r: bool) {
        probe.looks_textual() && (info.is_ext("ipynb") || info.is_mime("application/x-ipynb+json"))
    }

    fn convert(&self, bytes: &[u8], info: &StreamInfo, cx: &mut ConvertCx<'_>) -> (r: Result<
        Document,
        ConvertError,
    >) {
        let s = decode_info(bytes, &info.charset);
        let nb = match parse(&s) {
            Ok(v) => to_json(&v),
            Err(m) => {
                return Err(ConvertError::Malformed { format: "ipynb", message: m });
            },
        };
        notebook(&nb, cx)
    }
}

} // verus!

//! What templates see of a document, and what becomes of what they write.

use vstd::prelude::*;
use crate::chars;
use crate::converters::extract::Extractor;
use crate::converters::json;
use crate::converters::json::JsonV;
use crate::cx::Limits;
use crate::error::{ErrorV, WarningV};
use crate::ir;
use crate::ir::{BlockV, DocumentV};
use crate::render::RenderOptions;
use crate::template;
use crate::template::TemplatesV;

verus! {

/// The last value under a key.
pub open spec fn last_of(pairs: Seq<(Seq<char>, JsonV)>, key: Seq<char>) -> Option<JsonV>
    decreases pairs.len(),
{
    if pairs.len() == 0 {
        None
    } else if pairs.last().0 == key {
        Some(pairs.last().1)
    } else {
        last_of(pairs.drop_last(), key)
    }
}

proof fn lemma_put(s: Seq<(Seq<char>, JsonV)>, key: Seq<char>, value: JsonV, other: Seq<char>)
    ensures
        json::member(chars::put(s, key, value), other) == (if other == key {
            Some(value)
        } else {
            json::member(s, other)
        }),
    decreases s.len(),
{
    let r = chars::put(s, key, value);
    if s.len() == 0 || chars::before(key, s[0].0) {
        assert(r[0] == (key, value));
        assert(r.skip(1) =~= s);
    } else if s[0].0 == key {
        assert(r[0] == (key, value));
        assert(r.skip(1) =~= s.skip(1));
    } else {
        lemma_put(s.skip(1), key, value, other);
        assert(r[0] == s[0]);
        assert(r.skip(1) =~= chars::put(s.skip(1), key, value));
    }
}

/// An object that templates see holds, under each key, the last value it was given.
pub proof fn objects_hold_their_values(pairs: Seq<(Seq<char>, JsonV)>, key: Seq<char>)
    ensures
        template::object(pairs).get(key) == last_of(pairs, key),
    decreases pairs.len(),
{
    if pairs.len() > 0 {
        objects_hold_their_values(pairs.drop_last(), key);
        lemma_put(chars::sorted(pairs.drop_last()), pairs.last().0, pairs.last().1, key);
    }
}

proof fn lemma_last_push(pairs: Seq<(Seq<char>, JsonV)>, p: (Seq<char>, JsonV), key: Seq<char>)
    ensures
        last_of(pairs.push(p), key) == (if p.0 == key {
            Some(p.1)
        } else {
            last_of(pairs, key)
        }),
{
    assert(pairs.push(p).drop_last() =~= pairs);
}

/// The value under one of up to five keys.
pub(crate) proof fn lemma_five(
    a: (Seq<char>, JsonV),
    b: (Seq<char>, JsonV),
    c: (Seq<char>, JsonV),
    d: (Seq<char>, JsonV),
    e: (Seq<char>, JsonV),
    key: Seq<char>,
)
    ensures
        last_of(seq![a], key) == (if a.0 == key {
            Some(a.1)
        } else {
            None
        }),
        last_of(seq![a, b], key) == (if b.0 == key {
            Some(b.1)
        } else {
            last_of(seq![a], key)
        }),
        last_of(seq![a, b, c], key) == (if c.0 == key {
            Some(c.1)
        } else {
            last_of(seq![a, b], key)
        }),
        last_of(seq![a, b, c, d], key) == (if d.0 == key {
            Some(d.1)
        } else {
            last_of(seq![a, b, c], key)
        }),
        last_of(seq![a, b, c, d, e], key) == (if e.0 == key {
            Some(e.1)
        } else {
            last_of(seq![a, b, c, d], key)
        }),
{
    let none = Seq::<(Seq<char>, JsonV)>::empty();
    assert(last_of(none, key) is None);
    assert(none.push(a) =~= seq![a]);
    lemma_last_push(none, a, key);
    assert(seq![a].push(b) =~= seq![a, b]);
    lemma_last_push(seq![a], b, key);
    assert(seq![a, b].push(c) =~= seq![a, b, c]);
    lemma_last_push(seq![a, b], c, key);
    assert(seq![a, b, c].push(d) =~= seq![a, b, c, d]);
    lemma_last_push(seq![a, b, c], d, key);
    assert(seq![a, b, c, d].push(e) =~= seq![a, b, c, d, e]);
    lemma_last_push(seq![a, b, c, d], e, key);
}

proof fn lemma_keys()
    ensures
        "type"@ != "text"@,
        "type"@ != "level"@,
        "type"@ != "ordered"@,
        "type"@ != "items"@,
        "type"@ != "caption"@,
        "type"@ != "header"@,
        "type"@ != "rows"@,
        "type"@ != "language"@,
        "type"@ != "name"@,
        "type"@ != "title"@,
        "type"@ != "alt"@,
        "type"@ != "source_kind"@,
        "type"@ != "source"@,
        "text"@ != "level"@,
        "text"@ != "language"@,
        "ordered"@ != "items"@,
        "caption"@ != "header"@,
        "caption"@ != "rows"@,
        "header"@ != "rows"@,
        "name"@ != "title"@,
        "alt"@ != "caption"@,
        "alt"@ != "source_kind"@,
        "alt"@ != "source"@,
        "caption"@ != "source_kind"@,
        "caption"@ != "source"@,
        "source_kind"@ != "source"@,
{
    reveal_strlit("type");
    reveal_strlit("text");
    reveal_strlit("level");
    reveal_strlit("ordered");
    reveal_strlit("items");
    reveal_strlit("caption");
    reveal_strlit("header");
    reveal_strlit("rows");
    reveal_strlit("language");
    reveal_strlit("name");
    reveal_strlit("title");
    reveal_strlit("alt");
    reveal_strlit("source_kind");
    reveal_strlit("source");
    assert("type"@.len() == 4 && "text"@.len() == 4 && "rows"@.len() == 4 && "name"@.len() == 4);
    assert("type"@[1] == 'y' && "text"@[1] == 'e' && "rows"@[0] == 'r' && "name"@[0] == 'n'
        && "type"@[0] == 't');
    assert("level"@.len() == 5 && "items"@.len() == 5 && "title"@.len() == 5);
    assert("ordered"@.len() == 7 && "caption"@.len() == 7);
    assert("header"@.len() == 6 && "source"@.len() == 6 && "language"@.len() == 8 && "alt"@.len()
        == 3 && "source_kind"@.len() == 11);
}

/// Templates see a block by its type, and its text as it reads.
pub proof fn templates_see_text_and_type(b: BlockV)
    ensures
        template::spec_block_value(b).get("type"@) == Some(JsonV::Str(template::block_name(b))),
        b matches BlockV::Paragraph(t) ==> template::spec_block_value(b).get("text"@) == Some(
            JsonV::Str(ir::plain(t)),
        ),
        b matches BlockV::Heading { level, text } ==> template::spec_block_value(b).get("text"@)
            == Some(JsonV::Str(ir::plain(text))) && template::spec_block_value(b).get("level"@)
            == Some(JsonV::Number(chars::decimal(level as nat))),
        b matches BlockV::Code { language, text } ==> template::spec_block_value(b).get("text"@)
            == Some(JsonV::Str(text)) && template::spec_block_value(b).get("language"@) == Some(
            match language {
                Some(l) => JsonV::Str(l),
                None => JsonV::Null,
            },
        ),
        b matches BlockV::Raw { markdown } ==> template::spec_block_value(b).get("text"@) == Some(
            JsonV::Str(markdown),
        ),
        b matches BlockV::RawHtml { html } ==> template::spec_block_value(b).get("text"@) == Some(
            JsonV::Str(html),
        ),
        b matches BlockV::Embedded { name, doc } ==> template::spec_block_value(b).get("name"@)
            == Some(JsonV::Str(name)),
{
    lemma_keys();
    lemma_block_value(b, "type"@);
    lemma_block_value(b, "text"@);
    lemma_block_value(b, "level"@);
    lemma_block_value(b, "language"@);
    lemma_block_value(b, "name"@);
}

/// What a block's value holds under a key.
proof fn lemma_block_value(b: BlockV, key: Seq<char>)
    ensures
        ({
            let v = template::spec_block_value(b).get(key);
            let m = template::block_members(b);
            &&& m.len() <= 4
            &&& m.len() > 3 && key == m[3].0 ==> v == Some(m[3].1)
            &&& m.len() > 2 && key == m[2].0 && (m.len() > 3 ==> key != m[3].0) ==> v == Some(
                m[2].1,
            )
            &&& m.len() > 1 && key == m[1].0 && (m.len() > 2 ==> key != m[2].0) && (m.len() > 3
                ==> key != m[3].0) ==> v == Some(m[1].1)
            &&& m.len() > 0 && key == m[0].0 && (m.len() > 1 ==> key != m[1].0) && (m.len() > 2
                ==> key != m[2].0) && (m.len() > 3 ==> key != m[3].0) ==> v == Some(m[0].1)
            &&& key == "type"@ && (m.len() > 0 ==> key != m[0].0) && (m.len() > 1 ==> key
                != m[1].0) && (m.len() > 2 ==> key != m[2].0) && (m.len() > 3 ==> key != m[3].0)
                ==> v == Some(JsonV::Str(template::block_name(b)))
        }),
{
    let a = ("type"@, JsonV::Str(template::block_name(b)));
    let m = template::block_members(b);
    let all = seq![a] + m;
    objects_hold_their_values(all, key);
    if m.len() == 0 {
        assert(all =~= seq![a]);
        lemma_five(a, a, a, a, a, key);
    } else if m.len() == 1 {
        assert(all =~= seq![a, m[0]]);
        lemma_five(a, m[0], a, a, a, key);
    } else if m.len() == 2 {
        assert(all =~= seq![a, m[0], m[1]]);
        lemma_five(a, m[0], m[1], a, a, key);
    } else if m.len() == 3 {
        assert(all =~= seq![a, m[0], m[1], m[2]]);
        lemma_five(a, m[0], m[1], m[2], a, key);
    } else {
        assert(all =~= seq![a, m[0], m[1], m[2], m[3]]);
        lemma_five(a, m[0], m[1], m[2], m[3], key);
    }
}

/// Templates see a list's kind and as many items as it has.
pub proof fn templates_see_lists(ordered: bool, items: Seq<Seq<BlockV>>)
    ensures
        ({
            let v = template::spec_block_value(BlockV::List { ordered, items });
            &&& v.get("ordered"@) == Some(JsonV::Bool(ordered))
            &&& v.get("items"@) matches Some(JsonV::Array(a)) && a.len() == items.len()
                && forall|i: int|
                0 <= i < items.len() ==> (items[i].len() == 1 ==> (items[i][0] matches
                    BlockV::Paragraph(t) ==> #[trigger] a[i] == JsonV::Str(ir::plain(t))))
        }),
{
    let b = BlockV::List { ordered, items };
    lemma_keys();
    lemma_block_value(b, "ordered"@);
    lemma_block_value(b, "items"@);
    let a = template::item_values(items);
    assert forall|i: int| 0 <= i < items.len() implies (items[i].len() == 1 ==> (items[i][0] matches
        BlockV::Paragraph(t) ==> #[trigger] a[i] == JsonV::Str(ir::plain(t)))) by {
        if items[i].len() == 1 {
            let texts = template::block_texts(items[i]);
            assert(texts.len() == 1 && texts[0] == template::block_text(items[i][0]));
            assert(chars::join(texts, " "@) == texts[0]);
        }
    }
}

/// Templates see a table's caption, and each cell of its header and its rows in its
/// place.
pub proof fn templates_see_tables(t: ir::TableV)
    ensures
        ({
            let v = template::spec_block_value(BlockV::Table(t));
            &&& v.get("caption"@) == Some(
                match t.caption {
                    Some(c) => JsonV::Str(c),
                    None => JsonV::Null,
                },
            )
            &&& t.header is None ==> v.get("header"@) == Some(JsonV::Null)
            &&& t.header matches Some(h) ==> (v.get("header"@) matches Some(JsonV::Array(a))
                && a.len() == h.len() && forall|j: int|
                0 <= j < h.len() ==> #[trigger] a[j] == JsonV::Str(ir::plain(h[j])))
            &&& v.get("rows"@) matches Some(JsonV::Array(a)) && a.len() == t.rows.len() && forall|
                i: int,
            |
                0 <= i < t.rows.len() ==> row_shown(#[trigger] a[i], t.rows[i])
        }),
{
    let b = BlockV::Table(t);
    lemma_keys();
    lemma_block_value(b, "caption"@);
    lemma_block_value(b, "header"@);
    lemma_block_value(b, "rows"@);
}

/// Templates see a picture's texts, and its address with what kind of address it is.
pub proof fn templates_see_pictures(img: ir::ImageV)
    ensures
        ({
            let v = template::spec_block_value(BlockV::Image(img));
            &&& v.get("alt"@) == shown(img.alt)
            &&& v.get("caption"@) == shown(img.caption)
            &&& img.source matches ir::ImageRefV::Url(u) ==> v.get("source"@) == shown(Some(u))
                && v.get("source_kind"@) == shown(Some("url"@))
            &&& img.source matches ir::ImageRefV::Resource(u) ==> v.get("source"@) == shown(Some(u))
                && v.get("source_kind"@) == shown(Some("resource"@))
            &&& img.source matches ir::ImageRefV::Embedded(n) ==> v.get("source"@) == shown(Some(n))
                && v.get("source_kind"@) == shown(Some("embedded"@))
            &&& img.source is Absent ==> v.get("source"@) == shown(Some(seq![])) && v.get(
                "source_kind"@,
            ) == shown(Some("none"@))
        }),
{
    let b = BlockV::Image(img);
    lemma_keys();
    lemma_block_value(b, "alt"@);
    lemma_block_value(b, "caption"@);
    lemma_block_value(b, "source_kind"@);
    lemma_block_value(b, "source"@);
}

/// Templates see the paragraphs of a quote as one text, with empty lines between them.
pub proof fn templates_see_quotes(texts: Seq<Seq<ir::SpanV>>)
    ensures
        template::spec_block_value(
            BlockV::Quote(Seq::new(texts.len(), |i: int| BlockV::Paragraph(texts[i]))),
        ).get("text"@) == shown(
            Some(
                chars::join(
                    Seq::new(texts.len(), |i: int| ir::plain(texts[i])),
                    seq!['\n', '\n'],
                ),
            ),
        ),
{
    reveal_strlit("\n\n");
    assert("\n\n"@ =~= seq!['\n', '\n']);
    let inner = Seq::new(texts.len(), |i: int| BlockV::Paragraph(texts[i]));
    lemma_keys();
    lemma_block_value(BlockV::Quote(inner), "text"@);
    lemma_paragraphs(texts);
}

proof fn lemma_paragraphs(texts: Seq<Seq<ir::SpanV>>)
    ensures
        template::paragraph_texts(
            Seq::new(texts.len(), |i: int| BlockV::Paragraph(texts[i])),
        ) == Seq::new(texts.len(), |i: int| ir::plain(texts[i])),
    decreases texts.len(),
{
    let inner = Seq::new(texts.len(), |i: int| BlockV::Paragraph(texts[i]));
    let all = Seq::new(texts.len(), |i: int| ir::plain(texts[i]));
    if texts.len() == 0 {
        assert(template::paragraph_texts(inner) =~= all);
    } else {
        let before = texts.drop_last();
        lemma_paragraphs(before);
        assert(inner.drop_last() =~= Seq::new(
            before.len(),
            |i: int| BlockV::Paragraph(before[i]),
        ));
        assert(inner.last() == BlockV::Paragraph(texts.last()));
        assert(Seq::new(before.len(), |i: int| ir::plain(before[i])).push(ir::plain(texts.last()))
            =~= all);
    }
}

pub open spec fn row_shown(v: JsonV, row: Seq<Seq<ir::SpanV>>) -> bool {
    v matches JsonV::Array(a) && a.len() == row.len() && forall|j: int|
        0 <= j < row.len() ==> #[trigger] a[j] == JsonV::Str(ir::plain(row[j]))
}

/// Templates see a document's title, and its blocks in their order.
pub proof fn templates_see_documents(d: DocumentV)
    ensures
        ({
            let v = template::spec_document_value(d);
            &&& v.get("title"@) == Some(
                match d.title {
                    Some(t) => JsonV::Str(t),
                    None => JsonV::Null,
                },
            )
            &&& v.get("blocks"@) matches Some(JsonV::Array(a)) && a.len() == d.blocks.len()
                && forall|i: int|
                0 <= i < a.len() ==> #[trigger] a[i] == template::spec_block_value(d.blocks[i])
            &&& v.get("warnings"@) matches Some(JsonV::Array(a)) && a.len() == d.warnings.len()
            &&& v.get("metadata"@) == Some(template::metadata_value(d.metadata))
        }),
{
    reveal_strlit("title");
    reveal_strlit("metadata");
    reveal_strlit("blocks");
    reveal_strlit("warnings");
    assert("title"@.len() == 5 && "metadata"@.len() == 8 && "blocks"@.len() == 6 && "warnings"@.len()
        == 8);
    assert("metadata"@[0] == 'm' && "warnings"@[0] == 'w');
    let a = ("title"@, template::opt_str(d.title));
    let b = ("metadata"@, template::metadata_value(d.metadata));
    let c = ("blocks"@, JsonV::Array(template::block_values(d.blocks)));
    let e = ("warnings"@, JsonV::Array(template::warning_values(d.warnings)));
    let all = seq![a, b, c, e];
    lemma_five(a, b, c, e, e, "title"@);
    lemma_five(a, b, c, e, e, "metadata"@);
    lemma_five(a, b, c, e, e, "blocks"@);
    lemma_five(a, b, c, e, e, "warnings"@);
    objects_hold_their_values(all, "title"@);
    objects_hold_their_values(all, "metadata"@);
    objects_hold_their_values(all, "blocks"@);
    objects_hold_their_values(all, "warnings"@);
}

pub open spec fn shown(o: Option<Seq<char>>) -> Option<JsonV> {
    Some(
        match o {
            Some(s) => JsonV::Str(s),
            None => JsonV::Null,
        },
    )
}

/// Templates see each property of a document under its name.
pub proof fn templates_see_properties(m: ir::MetadataV)
    ensures
        template::metadata_value(m).get("author"@) == shown(m.author),
        template::metadata_value(m).get("created"@) == shown(m.created),
        template::metadata_value(m).get("modified"@) == shown(m.modified),
        template::metadata_value(m).get("language"@) == shown(m.language),
{
    reveal_strlit("author");
    reveal_strlit("created");
    reveal_strlit("modified");
    reveal_strlit("language");
    reveal_strlit("extra");
    assert("author"@.len() == 6 && "created"@.len() == 7 && "modified"@.len() == 8 && "language"@.len()
        == 8 && "extra"@.len() == 5);
    assert("modified"@[0] == 'm' && "language"@[0] == 'l');
    let a = ("author"@, template::opt_str(m.author));
    let b = ("created"@, template::opt_str(m.created));
    let c = ("modified"@, template::opt_str(m.modified));
    let d = ("language"@, template::opt_str(m.language));
    let e = ("extra"@, template::object(template::extra_values(m.extra)));
    let all = seq![a, b, c, d, e];
    lemma_five(a, b, c, d, e, "author"@);
    lemma_five(a, b, c, d, e, "created"@);
    lemma_five(a, b, c, d, e, "modified"@);
    lemma_five(a, b, c, d, e, "language"@);
    objects_hold_their_values(all, "author"@);
    objects_hold_their_values(all, "created"@);
    objects_hold_their_values(all, "modified"@);
    objects_hold_their_values(all, "language"@);
}

/// Templates see what is known of the source, each fact under its name.
pub proof fn templates_see_the_source(i: crate::stream_info::StreamInfoV)
    ensures
        ({
            let v = template::spec_source_value(Some(i));
            &&& v.get("filename"@) == shown(i.filename)
            &&& v.get("mimetype"@) == shown(i.mimetype)
            &&& v.get("extension"@) == shown(i.extension)
            &&& v.get("charset"@) == shown(i.charset)
            &&& v.get("uri"@) == shown(i.url)
        }),
{
    reveal_strlit("filename");
    reveal_strlit("mimetype");
    reveal_strlit("extension");
    reveal_strlit("charset");
    reveal_strlit("uri");
    assert("filename"@.len() == 8 && "mimetype"@.len() == 8 && "extension"@.len() == 9
        && "charset"@.len() == 7 && "uri"@.len() == 3);
    assert("filename"@[0] == 'f' && "mimetype"@[0] == 'm');
    let a = ("filename"@, template::opt_str(i.filename));
    let b = ("mimetype"@, template::opt_str(i.mimetype));
    let c = ("extension"@, template::opt_str(i.extension));
    let d = ("charset"@, template::opt_str(i.charset));
    let e = ("uri"@, template::opt_str(i.url));
    let all = seq![a, b, c, d, e];
    lemma_five(a, b, c, d, e, "filename"@);
    lemma_five(a, b, c, d, e, "mimetype"@);
    lemma_five(a, b, c, d, e, "extension"@);
    lemma_five(a, b, c, d, e, "charset"@);
    lemma_five(a, b, c, d, e, "uri"@);
    objects_hold_their_values(all, "filename"@);
    objects_hold_their_values(all, "mimetype"@);
    objects_hold_their_values(all, "extension"@);
    objects_hold_their_values(all, "charset"@);
    objects_hold_their_values(all, "uri"@);
}

/// A document's template sees the document, its rendered body, its source and the time.
pub proof fn templates_see_the_body(d: DocumentV, body: Seq<char>, x: template::ExtrasV)
    ensures
        ({
            let v = template::document_context(d, body, x);
            &&& v.get("doc"@) == Some(template::spec_document_value(d))
            &&& v.get("body"@) == Some(JsonV::Str(body))
            &&& v.get("source"@) == Some(template::spec_source_value(x.source))
            &&& v.get("now"@) == Some(
                JsonV::Str(
                    match x.now {
                        Some(s) => s,
                        None => seq![],
                    },
                ),
            )
        }),
{
    reveal_strlit("doc");
    reveal_strlit("body");
    reveal_strlit("source");
    reveal_strlit("now");
    assert("doc"@.len() == 3 && "body"@.len() == 4 && "source"@.len() == 6 && "now"@.len() == 3);
    assert("doc"@[0] == 'd' && "now"@[0] == 'n');
    let a = ("doc"@, template::spec_document_value(d));
    let b = ("body"@, JsonV::Str(body));
    let c = ("source"@, template::spec_source_value(x.source));
    let e = ("now"@, JsonV::Str(template::or_empty(x.now)));
    let all = seq![a, b, c, e];
    lemma_five(a, b, c, e, e, "doc"@);
    lemma_five(a, b, c, e, e, "body"@);
    lemma_five(a, b, c, e, e, "source"@);
    lemma_five(a, b, c, e, e, "now"@);
    objects_hold_their_values(all, "doc"@);
    objects_hold_their_values(all, "body"@);
    objects_hold_their_values(all, "source"@);
    objects_hold_their_values(all, "now"@);
}

proof fn lemma_fitting(s: Seq<char>, max: nat)
    ensures
        0 <= template::fitting(s, max) <= s.len(),
        chars::byte_len(s.take(template::fitting(s, max))) <= max,
        template::fitting(s, max) < s.len() ==> chars::byte_len(
            s.take(template::fitting(s, max) + 1),
        ) > max,
    decreases s.len(),
{
    let n = template::fitting(s, max);
    if s.len() == 0 || chars::width(s[0]) > max {
        assert(s.take(0) =~= seq![]);
        assert(chars::byte_len(s.take(0)) == 0);
        if s.len() > 0 {
            assert(s.take(1) =~= seq![s[0]]);
            assert(seq![s[0]].drop_last() =~= seq![]);
            assert(chars::byte_len(seq![s[0]].drop_last()) == 0);
        }
    } else {
        let rest = s.skip(1);
        lemma_fitting(rest, (max - chars::width(s[0])) as nat);
        let one = seq![s[0]];
        assert(one.drop_last() =~= seq![]);
        assert(chars::byte_len(one.drop_last()) == 0);
        assert(chars::byte_len(one) == chars::width(s[0]));
        assert(s.take(n) =~= one + rest.take(n - 1));
        chars::lemma_byte_len_concat(one, rest.take(n - 1));
        if n < s.len() {
            assert(s.take(n + 1) =~= one + rest.take(n));
            chars::lemma_byte_len_concat(one, rest.take(n));
        }
    }
}

proof fn lemma_rfind(s: Seq<char>, p: Seq<char>, i: int)
    ensures
        chars::rfind_from(s, p, i) matches Some(k) ==> 0 <= k <= i && chars::matches_at(s, p, k)
            && forall|j: int| k < j <= i ==> !chars::matches_at(s, p, j),
        chars::rfind_from(s, p, i) is None ==> forall|j: int|
            0 <= j <= i ==> !chars::matches_at(s, p, j),
    decreases i + 1,
{
    if i >= 0 && !chars::matches_at(s, p, i) {
        lemma_rfind(s, p, i - 1);
    }
}

/// Output that fits is kept whole. Of output that does not, a part from its start is
/// kept that does: it ends where a line ends, or has no line end at all and holds all
/// that fits.
pub proof fn long_output_is_cut_at_a_line(s: Seq<char>, max: nat)
    ensures
        ({
            let k = template::kept_text(s, max);
            &&& chars::byte_len(s) <= max ==> k == s
            &&& chars::byte_len(s) > max ==> {
                &&& k.len() < s.len()
                &&& k == s.take(k.len() as int)
                &&& chars::byte_len(k) <= max
                &&& s[k.len() as int] == '\n' || (!k.contains('\n') && chars::byte_len(
                    s.take(k.len() as int + 1),
                ) > max)
            }
        }),
{
    reveal_strlit("\n");
    assert("\n"@ =~= seq!['\n']);
    if chars::byte_len(s) > max {
        let n = template::fitting(s, max);
        lemma_fitting(s, max);
        let head = s.take(n);
        assert(s.take(s.len() as int) =~= s);
        assert(n < s.len());
        lemma_rfind(head, "\n"@, head.len() as int - 1);
        match chars::rfind(head, "\n"@) {
            Some(i) => {
                assert(chars::matches_at(head, "\n"@, i));
                assert(head.subrange(i, i + 1)[0] == head[i]);
                assert(head.take(i) =~= s.take(i));
                assert(s.take(n) =~= s.take(i) + s.subrange(i, n));
                chars::lemma_byte_len_concat(s.take(i), s.subrange(i, n));
            },
            None => {
                if head.contains('\n') {
                    let i = head.index_of('\n');
                    assert(head.subrange(i, i + 1) =~= "\n"@);
                    assert(chars::matches_at(head, "\n"@, i));
                }
            },
        }
    }
}

/// What blocks become is written behind what is already there, and warnings join those
/// there are.
pub proof fn blocks_are_written_in_order<X: Extractor>(
    tools: X,
    t: TemplatesV,
    bs: Seq<BlockV>,
    i: int,
    out: (Seq<char>, Seq<WarningV>),
    opts: RenderOptions,
    limits: Limits,
    r: (Seq<char>, Seq<WarningV>),
)
    requires
        template::blocks_from(tools, t, bs, i, out, opts, limits, Ok(r)),
    ensures
        chars::starts_with(r.0, out.0),
        out.1.len() <= r.1.len(),
        r.1.take(out.1.len() as int) == out.1,
    decreases bs.len() - i,
{
    assert(out.0.take(out.0.len() as int) =~= out.0);
    assert(out.1.take(out.1.len() as int) =~= out.1);
    if 0 <= i < bs.len() {
        let wrote = choose|wrote: template::WrittenV| #[trigger]
            template::block_wrote(tools, t, bs[i], wrote) && (match template::block_piece(
                t,
                bs[i],
                wrote,
                opts,
                limits,
            ) {
                Err(e) => Ok::<(Seq<char>, Seq<WarningV>), ErrorV>(r) == Err::<
                    (Seq<char>, Seq<WarningV>),
                    ErrorV,
                >(e),
                Ok(p) => {
                    let piece = chars::trim(p.0);
                    let next = out.0 + piece + "\n\n"@;
                    let ws = out.1 + p.1;
                    if piece.len() == 0 {
                        template::blocks_from(
                            tools,
                            t,
                            bs,
                            i + 1,
                            (out.0, ws),
                            opts,
                            limits,
                            Ok(r),
                        )
                    } else if chars::byte_len(next) > limits.max_output_bytes {
                        r == (next, ws)
                    } else {
                        template::blocks_from(tools, t, bs, i + 1, (next, ws), opts, limits, Ok(r))
                    }
                },
            });
        if let Ok(p) = template::block_piece(t, bs[i], wrote, opts, limits) {
            let piece = chars::trim(p.0);
            let next = out.0 + piece + "\n\n"@;
            let ws = out.1 + p.1;
            assert(next.take(out.0.len() as int) =~= out.0);
            assert(ws.take(out.1.len() as int) =~= out.1);
            if piece.len() == 0 {
                blocks_are_written_in_order(tools, t, bs, i + 1, (out.0, ws), opts, limits, r);
                assert(r.1.take(out.1.len() as int) =~= r.1.take(ws.len() as int).take(
                    out.1.len() as int,
                ));
            } else if chars::byte_len(next) <= limits.max_output_bytes {
                blocks_are_written_in_order(tools, t, bs, i + 1, (next, ws), opts, limits, r);
                assert(r.0.take(out.0.len() as int) =~= r.0.take(next.len() as int).take(
                    out.0.len() as int,
                ));
                assert(r.1.take(out.1.len() as int) =~= r.1.take(ws.len() as int).take(
                    out.1.len() as int,
                ));
            }
        }
    }
}

} // verus!

//! Texts with single spaces between their words, and the titles that documents get.

use vstd::prelude::*;
use crate::chars;
use crate::converters;
use crate::converters::epub;
use crate::converters::extract::ExtractedV;
use crate::converters::html;
use crate::converters::json;
use crate::converters::json::JsonV;
use crate::converters::media;
use crate::converters::msg;
use crate::converters::msg::MessageV;
use crate::converters::ooxml;
use crate::converters::ooxml::{CoreV, SlideAccV, WalkV};
use crate::converters::pdf;
use crate::converters::xml;
use crate::converters::xml::{FeedV, NodeV};
use crate::cx::CxV;
use crate::fidelity;
use crate::fidelity::properties;
use crate::fidelity::word;
use crate::ir;
use crate::ir::{BlockV, SpanV};

verus! {

/// The words of a text with single spaces between them.
pub open spec fn tidied(s: Seq<char>) -> Seq<char> {
    chars::join(chars::words(s), seq![' '])
}

proof fn lemma_tidied(s: Seq<char>)
    ensures
        converters::spec_squeeze(s) == tidied(s),
        tidied(s).len() > 0 <==> !chars::is_blank(s),
{
    reveal_strlit(" ");
    assert(" "@ =~= seq![' ']);
    fidelity::lemma_squeeze_blank(s);
}

/// An element of a chapter shows its text tidied.
pub proof fn chapter_text_is_tidy(n: NodeV)
    ensures
        epub::chapter_block(n) matches Some(b) ==> (match b {
            BlockV::Heading { text, .. } => ir::plain(text) == tidied(n.text),
            BlockV::Paragraph(text) => ir::plain(text) == tidied(n.text),
            _ => false,
        }),
        chars::is_blank(n.text) ==> epub::chapter_block(n) is None,
{
    lemma_tidied(n.text);
    fidelity::lemma_plain_text(tidied(n.text));
}

/// A paragraph of a slide and a cell of its table show their text tidied.
pub proof fn slide_text_is_tidy(s: SlideAccV, n: NodeV)
    ensures
        n.name() == "p"@ && !n.under("tbl"@) && !chars::is_blank(n.text) ==> {
            let r = ooxml::slide_step(s, n);
            &&& r.table == s.table
            &&& r.blocks.len() == s.blocks.len() + 1
            &&& r.blocks.drop_last() == s.blocks
            &&& r.blocks.last() matches BlockV::Paragraph(t) && ir::plain(t) == tidied(n.text)
        },
        n.name() == "tc"@ ==> {
            let r = ooxml::slide_step(s, n);
            &&& r.blocks == s.blocks && r.table.rows == s.table.rows
            &&& r.table.row.len() == s.table.row.len() + 1
            &&& r.table.row.drop_last() == s.table.row
            &&& ir::plain(r.table.row.last()) == tidied(n.text)
        },
{
    word::lemma_names();
    lemma_tidied(n.text);
    fidelity::lemma_plain_text(tidied(n.text));
    let r = ooxml::slide_step(s, n);
    let t = tidied(n.text);
    assert(s.blocks.push(BlockV::Paragraph(seq![SpanV::Text(t)])).drop_last() =~= s.blocks);
    assert(s.table.row.push(seq![SpanV::Text(t)]).drop_last() =~= s.table.row);
}

/// A note shows its text tidied.
pub proof fn notes_are_tidy(nodes: Seq<NodeV>, n: NodeV)
    ensures
        n.name() == "p"@ && !chars::is_blank(n.text) ==> ooxml::para_texts(nodes.push(n)).len()
            == ooxml::para_texts(nodes).len() + 1 && ooxml::para_texts(nodes.push(n)).drop_last()
            == ooxml::para_texts(nodes) && ooxml::para_texts(nodes.push(n)).last() == tidied(n.text),
        n.name() != "p"@ || chars::is_blank(n.text) ==> ooxml::para_texts(nodes.push(n))
            == ooxml::para_texts(nodes),
{
    lemma_tidied(n.text);
    let more = nodes.push(n);
    assert(more.drop_last() =~= nodes);
    assert(more.last() == n);
    let t = ooxml::para_texts(nodes);
    assert(t.push(tidied(n.text)).drop_last() =~= t);
}

/// A cell of a Word table shows its text tidied, also where it has no paragraph.
pub proof fn cells_are_tidy(w: WalkV, n: NodeV, rels: Seq<(Seq<char>, Seq<char>)>)
    requires
        w.cell is None,
        w.tables.len() > 0,
    ensures
        !chars::is_blank(ooxml::concat_unlinked(w.runs)) ==> ooxml::spec_close_paragraph(w, 1).cell
            == Some(tidied(ooxml::concat_unlinked(w.runs))),
        n.name() == "tc"@ && ooxml::count_name(n.path, "tbl"@) == 1 ==> ir::plain(
            ooxml::walk_step(w, n, rels).tables[0].row.last(),
        ) == tidied(n.text),
{
    word::lemma_names();
    lemma_tidied(ooxml::concat_unlinked(w.runs));
    lemma_tidied(n.text);
    fidelity::lemma_plain_text(tidied(n.text));
}

/// The properties of an Office document and of a book are tidied.
pub proof fn properties_are_tidy(c: CoreV, n: NodeV, nodes: Seq<NodeV>)
    ensures
        !chars::is_blank(n.own_text) ==> {
            let r = ooxml::core_step(c, n);
            &&& n.name() == "title"@ ==> r.title == Some(tidied(n.own_text))
            &&& n.name() == "creator"@ ==> r.creator == Some(tidied(n.own_text))
            &&& n.name() == "created"@ ==> r.created == Some(tidied(n.own_text))
            &&& n.name() == "modified"@ ==> r.modified == Some(tidied(n.own_text))
            &&& n.name() == "language"@ ==> r.meta.language == Some(tidied(n.own_text))
        },
        nodes.len() > 0 && nodes[0].name() == "title"@ && !chars::is_blank(nodes[0].own_text)
            ==> epub::package_of(nodes).title == Some(tidied(nodes[0].own_text)),
        nodes.len() > 0 && nodes[0].name() == "creator"@ && !chars::is_blank(nodes[0].own_text)
            ==> epub::package_of(nodes).creator == Some(tidied(nodes[0].own_text)),
{
    lemma_tidied(n.own_text);
    reveal_strlit("title");
    reveal_strlit("creator");
    reveal_strlit("created");
    reveal_strlit("modified");
    reveal_strlit("language");
    assert("title"@.len() == 5 && "creator"@.len() == 7 && "created"@.len() == 7
        && "modified"@.len() == 8 && "language"@.len() == 8);
    assert("creator"@[5] == 'o' && "created"@[5] == 'e' && "modified"@[0] == 'm' && "language"@[0]
        == 'l');
    if nodes.len() > 0 {
        lemma_tidied(nodes[0].own_text);
        properties::lemma_package(nodes);
    }
}

/// A PDF's information strings are tidied, and so are a message's headers, its title and
/// the names of its attachments.
pub proof fn strings_are_tidy(raw: Seq<u8>, m: MessageV, label: Seq<char>, key: Seq<char>, v: Seq<char>)
    ensures
        !chars::is_blank(pdf::spec_decode_pdf_string(raw)) ==> pdf::info_text(Some(raw)) == Some(
            tidied(pdf::spec_decode_pdf_string(raw)),
        ),
        m.get(key) == Some(v) ==> msg::header_row(m, label, key).len() == 1 && ir::plain(
            msg::header_row(m, label, key)[0][1],
        ) == tidied(v) && ir::plain(msg::header_row(m, label, key)[0][0]) == label,
        !chars::is_blank(v) ==> m.with("attachment"@, v).attachments.last() == tidied(v),
        m.get("subject"@) == Some(v) && !chars::is_blank(v) ==> (msg::message_document(m) matches
            Ok(d) ==> d.title == Some(tidied(v))),
        m.get("from"@) == Some(v) ==> (msg::message_document(m) matches Ok(d) ==> d.metadata.author
            == Some(tidied(v))),
{
    lemma_tidied(pdf::spec_decode_pdf_string(raw));
    lemma_tidied(v);
    fidelity::lemma_plain_text(label);
    fidelity::lemma_plain_text(tidied(v));
    converters::squeezing_is_idempotent(v);
    fidelity::lemma_squeeze_blank(tidied(v));
}

/// What an item of a feed says is tidied, and so is the text of an XML element.
pub proof fn markup_text_is_tidy(f: FeedV, n: NodeV)
    requires
        xml::in_entry(n),
        f.current.title.len() == 0,
        f.current.summary.len() == 0,
    ensures
        n.name() == "title"@ ==> xml::feed_step(f, n).current.title == tidied(n.text),
        n.name() == "summary"@ ==> xml::feed_step(f, n).current.summary == tidied(n.text),
        !chars::is_blank(n.own_text) ==> (xml::xml_block(n) matches Some(b) && (b matches
            BlockV::Paragraph(t) && t.len() == 3 && ir::plain_span(t[2]) == tidied(n.own_text)
            && ir::plain_span(t[0]) == n.name())),
{
    lemma_tidied(n.text);
    lemma_tidied(n.own_text);
    fidelity::lemma_plain_text(n.name());
    reveal_strlit("title");
    reveal_strlit("summary");
    reveal_strlit("item");
    reveal_strlit("entry");
    reveal_strlit("link");
    assert("title"@.len() == 5 && "summary"@.len() == 7 && "item"@.len() == 4 && "entry"@.len() == 5
        && "link"@.len() == 4);
    assert("title"@[0] == 't' && "entry"@[0] == 'e');
}

/// A presentation that states no title takes one from its slides.
pub proof fn untitled_presentations_take_a_title(bytes: Seq<u8>, pre: CxV)
    ensures
        ooxml::pptx_result(bytes, pre).0 matches Ok(d) ==> {
            let core = ooxml::spec_core_properties(bytes, ir::empty_document(), pre);
            let slides = ooxml::slides_of(crate::archive::archive_names(bytes));
            ooxml::with_slides(bytes, slides, 0, core.0, core.1).0 matches Ok(e) && (e.title is None
                ==> d.title == ooxml::first_paragraph_text(e.blocks))
        },
{
}

/// A notebook that names no title takes the name of its kernel, and where that is
/// missing too the first heading of its text.
pub proof fn untitled_notebooks_take_a_title(nb: JsonV, t: Seq<char>)
    requires
        json::path2(nb, "metadata"@, "title"@) is None,
    ensures
        json::path3(nb, "metadata"@, "kernelspec"@, "display_name"@) == Some(JsonV::Str(t))
            && !chars::is_blank(t) ==> (json::notebook_document(Ok(nb)) matches Ok(d) ==> d.title
            == Some(t)),
        json::path3(nb, "metadata"@, "kernelspec"@, "display_name"@) is None ==> (
        json::notebook_document(Ok(nb)) matches Ok(d) ==> d.title == json::spec_first_heading(
            d.blocks,
        )),
{
}

/// A feed's title is the document's, and so is a page's.
pub proof fn feeds_and_pages_keep_their_title(nodes: Seq<NodeV>, page: Seq<char>, m: Seq<char>)
    ensures
        xml::feed_shown(nodes).title == properties::said(xml::feed_run(nodes).title),
        html::html_document(page, ExtractedV::Ready(m)) matches Ok(d) && d.title
            == properties::said(html::spec_extract_title(page)),
{
}

/// A paragraph's level in its list is the number it is given.
pub proof fn list_levels_are_read(
    w: WalkV,
    n: NodeV,
    rels: Seq<(Seq<char>, Seq<char>)>,
    k: nat,
)
    requires
        n.name() == "ilvl"@,
        k <= 255,
    ensures
        n.attr("val"@) == Some(chars::decimal(k)) ==> ooxml::walk_step(w, n, rels).list_level
            == Some(k as u8),
        n.attr("val"@) matches Some(v) ==> (v.len() > 0 && v[0] != '+' && !chars::is_digit(v[0])
            ==> ooxml::walk_step(w, n, rels).list_level is None),
        n.attr("val"@) is None ==> ooxml::walk_step(w, n, rels).list_level is None,
{
    reveal_strlit("ilvl");
    reveal_strlit("pstyle");
    assert("ilvl"@.len() == 4 && "pstyle"@.len() == 6);
    let d = chars::decimal(k);
    fidelity::tables::lemma_decimal(k);
    assert(chars::is_digit(d[0]));
    assert(chars::strip_plus(d) == d);
}

/// Titles and descriptions, cameras, dates, authors, sizes, exposures and places are
/// kept of an image's fields.
pub proof fn telling_fields_are_kept()
    ensures
        media::is_kept_tag("Image title"@),
        media::is_kept_tag("Image description"@),
        media::is_kept_tag("Manufacturer of image input equipment"@),
        media::is_kept_tag("Model of image input equipment"@),
        media::is_kept_tag("Date and time of image creation"@),
        media::is_kept_tag("Date and time of original data generation"@),
        media::is_kept_tag("Person who created the image"@),
        media::is_kept_tag("Copyright holder"@),
        media::is_kept_tag("Image width"@),
        media::is_kept_tag("Image height"@),
        media::is_kept_tag("Orientation of image"@),
        media::is_kept_tag("Exposure time"@),
        media::is_kept_tag("F number"@),
        media::is_kept_tag("ISO speed"@),
        media::is_kept_tag("Lens model"@),
        media::is_kept_tag("GPS latitude"@),
        media::is_kept_tag("GPS longitude"@),
{
}

} // verus!

//! What is left out, and what stands in for it.

use vstd::prelude::*;
use crate::chars;
use crate::converters;
use crate::converters::epub;
use crate::converters::epub::PackageV;
use crate::converters::html;
use crate::converters::json;
use crate::converters::json::JsonV;
use crate::converters::ooxml;
use crate::converters::ooxml::{SlideAccV, WalkV};
use crate::converters::xml::NodeV;
use crate::cx::{BudgetV, CxV, Limits};
use crate::error::ErrorV;
use crate::fidelity;
use crate::fidelity::web;
use crate::fidelity::word;
use crate::ir;
use crate::ir::{BlockV, DocumentV};
use crate::render;
use crate::render::{FrontMatter, RenderOptions};
use crate::stream_info;
use crate::template;
use crate::template::TemplatesV;

verus! {

/// A tag that gives a property under another name for its name.
pub open spec fn property_tag(name: Seq<char>, content: Seq<char>) -> Seq<char> {
    "<meta property=\""@ + name + "\" content=\""@ + content + "\""@
}

/// A property may be named by a property attribute in place of a name.
#[verifier::rlimit(60)]
#[verifier::spinoff_prover]
pub proof fn properties_may_name_themselves(name: Seq<char>, content: Seq<char>)
    requires
        !name.contains('"'),
        !name.contains('='),
        !content.contains('"'),
        !content.contains('='),
    ensures
        html::meta_pair(property_tag(name, content)) == seq![
            (chars::lower(name), html::spec_decode_entities(content)),
        ],
{
    reveal_strlit("<meta property=\"");
    reveal_strlit("\" content=\"");
    reveal_strlit("\"");
    reveal_strlit("name");
    reveal_strlit("property");
    reveal_strlit("content");
    reveal_strlit("=");
    let tag = property_tag(name, content);
    let low = chars::lower(tag);
    let head = seq!['<', 'm', 'e', 't', 'a', ' '];
    let rest = seq![' ', 'c', 'o', 'n', 't', 'e', 'n', 't', '=', '"'] + content + seq!['"'];
    assert("property"@ =~= seq!['p', 'r', 'o', 'p', 'e', 'r', 't', 'y']);
    assert(tag =~= head + "property"@ + seq!['=', '"'] + name + seq!['"'] + rest);
    assert(chars::lower("property"@) =~= "property"@);
    web::attributes_are_read(head, "property"@, '"', name, rest);
    web::lemma_lower_keeps(name, '=');
    web::lemma_lower_keeps(content, '=');
    let a = 16 + name.len() as int;
    let b = a + 11;
    let c = b + content.len() as int;
    assert forall|j: int| 0 <= j < low.len() && low[j] == '=' implies j == 14 || j == a + 9 by {
        if j < 16 {
            assert(low[j] == chars::lower1("<meta property=\""@[j]));
        } else if j < a {
            assert(low[j] == chars::lower(name)[j - 16]);
        } else if j < b {
            assert(low[j] == chars::lower1("\" content=\""@[j - a]));
        } else if j < c {
            assert(low[j] == chars::lower(content)[j - b]);
        } else {
            assert(low[j] == chars::lower1('"'));
        }
    }
    let n = "name"@ + "="@;
    assert(n =~= seq!['n', 'a', 'm', 'e', '=']);
    chars::lemma_find_from(low, n, 0);
    if let Some(k) = chars::find(low, n) {
        let w = low.subrange(k, k + 5);
        assert(w[4] == low[k + 4] && w[0] == low[k]);
        assert(low[k + 4] == '=');
        if k + 4 == 14 {
            assert(low[10] == chars::lower1("<meta property=\""@[10]));
        } else {
            assert(low[k] == chars::lower1("\" content=\""@[k - a]));
        }
    }
    assert(html::spec_attr_value(tag, "name"@) is None);
    let p = "content"@ + "="@;
    assert(p =~= seq!['c', 'o', 'n', 't', 'e', 'n', 't', '=']);
    let k = a + 2;
    assert(low.subrange(k, k + 8) =~= p);
    assert(chars::matches_at(low, p, k));
    assert forall|j: int| 0 <= j < k implies !chars::matches_at(low, p, j) by {
        if chars::matches_at(low, p, j) {
            let w = low.subrange(j, j + 8);
            assert(w[7] == low[j + 7] && w[0] == low[j]);
            assert(j + 7 == 14);
            assert(low[7] == chars::lower1("<meta property=\""@[7]));
        }
    }
    web::lemma_find_at(low, p, 0, k);
    let inner = tag.skip(k + 8);
    assert(inner =~= seq!['"'] + content + seq!['"']);
    let more = inner.skip(1);
    assert(more =~= content + seq!['"']);
    let q = seq!['"'];
    let m = content.len() as int;
    assert(more.subrange(m, m + 1) =~= q);
    assert(chars::matches_at(more, q, m));
    assert forall|j: int| 0 <= j < m implies !chars::matches_at(more, q, j) by {
        assert(more[j] == content[j]);
        web::lemma_no_match(more, q, '"', j);
    }
    web::lemma_find_at(more, q, 0, m);
    assert(more.take(m) =~= content);
}

/// Where a name stands that ends there.
pub open spec fn is_tag_at(low: Seq<char>, tag: Seq<char>, p: int) -> bool {
    let end = p + tag.len();
    chars::matches_at(low, tag, p) && (end == low.len() || low[end] == '>' || low[end] == '/'
        || chars::is_space(low[end]))
}

/// A tag is found where its name stands and ends; a longer name is another tag.
pub proof fn tags_are_found_by_their_whole_name(low: Seq<char>, tag: Seq<char>, i: int, k: int)
    requires
        0 <= i,
        tag.len() > 0,
    ensures
        html::find_tag(low, tag, i) matches Some(p) ==> i <= p && is_tag_at(low, tag, p),
        i <= k && is_tag_at(low, tag, k) ==> (html::find_tag(low, tag, i) matches Some(p) && p
            <= k),
    decreases low.len() - i + 1,
{
    chars::lemma_find_from(low, tag, i);
    if let Some(p) = chars::find_from(low, tag, i) {
        if !html::name_ends(low, p + tag.len()) {
            tags_are_found_by_their_whole_name(low, tag, p + 1, k);
        }
    }
}

/// A result that is a picture alone is named as one.
pub proof fn pictures_stand_as_a_note(o: JsonV)
    requires
        o.get("output_type"@) == Some(JsonV::Str("display_data"@)) || o.get("output_type"@) == Some(
            JsonV::Str("execute_result"@),
        ),
        json::path2(o, "data"@, "text/plain"@) is None,
        json::path2(o, "data"@, "image/png"@) is Some,
    ensures
        json::output_text(o) == "[image output]"@,
{
    reveal_strlit("stream");
    reveal_strlit("execute_result");
    reveal_strlit("display_data");
    assert("stream"@.len() == 6 && "execute_result"@.len() == 14 && "display_data"@.len() == 12);
    let none = Seq::<char>::empty();
    assert(chars::trim(none) =~= none);
}

/// What only serves to find one's way in a book is left out of it.
pub proof fn navigation_is_left_out(
    bytes: Seq<u8>,
    p: PackageV,
    base: Seq<char>,
    id: Seq<char>,
    d: DocumentV,
    c: CxV,
)
    requires
        p.nav_ids.contains(id),
    ensures
        epub::with_spine_item(bytes, p, base, id, d, c) == (Ok::<DocumentV, ErrorV>(d), c),
{
}

/// An item of the manifest serves navigation where it is marked for it or is the older
/// kind of table of contents.
pub proof fn navigation_is_marked(n: NodeV, marks: Seq<char>)
    ensures
        n.attr("properties"@) == Some(marks) && chars::words(marks).contains("nav"@)
            ==> epub::is_nav(n),
        n.attr("media-type"@) == Some("application/x-dtbncx+xml"@) ==> epub::is_nav(n),
        n.attr("properties"@) is None && n.attr("media-type"@) is None ==> !epub::is_nav(n),
{
}

/// A fault in a CSV text counts where it comes before the rows that are kept end.
pub proof fn faults_count_where_they_are_reached(
    rows: Seq<Seq<Seq<char>>>,
    fault: Seq<char>,
    caption: Option<Seq<char>>,
    max_rows: u32,
)
    ensures
        rows.len() < max_rows + 2 ==> converters::csv::csv_document(
            (rows, Some(fault)),
            caption,
            max_rows,
        ) == Err::<DocumentV, ErrorV>(ErrorV::Malformed { format: "csv"@, message: fault }),
        rows.len() >= max_rows + 2 ==> converters::csv::csv_document(
            (rows, Some(fault)),
            caption,
            max_rows,
        ) == converters::csv::csv_document((rows, None), caption, max_rows),
        converters::csv::csv_document((rows, None), caption, max_rows) is Ok,
{
}

/// A paragraph in a slide's table belongs to its cell and stands nowhere else.
pub proof fn cells_of_slides_stand_only_in_their_table(s: SlideAccV, n: NodeV)
    requires
        n.name() == "p"@,
        n.under("tbl"@),
    ensures
        ooxml::slide_step(s, n) == s,
{
}

/// A tab is a space and a break a line feed, neither bold nor slanted nor part of a
/// link.
pub proof fn tabs_and_breaks_are_plain(
    w: WalkV,
    n: NodeV,
    rels: Seq<(Seq<char>, Seq<char>)>,
)
    requires
        n.name() == "tab"@ || n.name() == "br"@,
    ensures
        ({
            let r = ooxml::walk_step(w, n, rels).runs;
            &&& r.len() == w.runs.len() + 1
            &&& r.drop_last() == w.runs
            &&& !r.last().bold && !r.last().italic && !r.last().linked
            &&& n.name() == "tab"@ ==> r.last().text == seq![' ']
            &&& n.name() == "br"@ ==> r.last().text == seq!['\n']
        }),
{
    word::lemma_names();
    reveal_strlit(" ");
    reveal_strlit("\n");
    reveal_strlit("tab");
    reveal_strlit("br");
    assert("tab"@.len() == 3 && "br"@.len() == 2);
    assert(" "@ =~= seq![' ']);
    assert("\n"@ =~= seq!['\n']);
    let r = ooxml::walk_step(w, n, rels).runs;
    assert(r.drop_last() =~= w.runs);
}

/// Inside a document template the body has no front matter of its own; without one the
/// options hold as they are.
pub proof fn bodies_leave_front_matter_to_their_template(t: TemplatesV, opts: RenderOptions)
    ensures
        t.has_document ==> template::body_options(t, opts).front_matter == FrontMatter::Off
            && template::body_options(t, opts).tables == opts.tables && template::body_options(
            t,
            opts,
        ).heading_offset == opts.heading_offset && template::body_options(
            t,
            opts,
        ).preserve_unsupported_html == opts.preserve_unsupported_html,
        !t.has_document ==> template::body_options(t, opts) == opts,
{
}

/// A page has the room and the rows that the limits allow.
pub proof fn pages_have_the_room_they_are_given(opts: RenderOptions, limits: Limits)
    ensures
        render::page(opts, limits).opts == opts,
        render::page(opts, limits).max == limits.max_output_bytes,
        render::page(opts, limits).max_rows == limits.max_table_rows,
{
}

/// Plain text has no title, and every block of it is a paragraph.
pub proof fn plain_text_is_paragraphs(s: Seq<char>)
    ensures
        ({
            let d = converters::text::text_document(s, false);
            &&& d.title is None
            &&& forall|i: int| 0 <= i < d.blocks.len() ==> #[trigger] d.blocks[i] is Paragraph
        }),
{
    lemma_paragraphs(chars::split(s, "\n\n"@));
}

proof fn lemma_paragraphs(parts: Seq<Seq<char>>)
    ensures
        forall|i: int|
            0 <= i < converters::para_blocks(parts).len() ==> #[trigger] converters::para_blocks(
                parts,
            )[i] is Paragraph,
    decreases parts.len(),
{
    if parts.len() > 0 {
        lemma_paragraphs(parts.drop_last());
        let t = converters::para_blocks(parts.drop_last());
        assert forall|i: int| 0 <= i < converters::para_blocks(parts).len() implies
            #[trigger] converters::para_blocks(parts)[i] is Paragraph by {
            if i < t.len() {
                assert(t[i] is Paragraph);
                assert(converters::para_blocks(parts)[i] == t[i]);
            }
        }
    }
}

/// A paragraph, a quotation and a list item of a chapter each become a paragraph.
pub proof fn chapter_text_is_paragraphs(n: NodeV)
    requires
        n.name() == "p"@ || n.name() == "blockquote"@ || n.name() == "li"@,
        !chars::is_blank(n.text),
    ensures
        epub::chapter_block(n) matches Some(b) && (b matches BlockV::Paragraph(t) && chars::words(
            ir::plain(t),
        ) == chars::words(n.text)),
{
    reveal_strlit("p");
    reveal_strlit("blockquote");
    reveal_strlit("li");
    reveal_strlit("h");
    assert("p"@[0] == 'p' && "blockquote"@[0] == 'b' && "li"@[0] == 'l');
    fidelity::lemma_squeeze_blank(n.text);
    converters::squeezing_is_idempotent(n.text);
    fidelity::lemma_plain_text(converters::spec_squeeze(n.text));
    if chars::starts_with(n.name(), "h"@) {
        assert(n.name().take(1)[0] == n.name()[0]);
    }
}

/// Types and extensions are known in small letters.
pub proof fn names_of_types_are_small(raw: Seq<char>)
    ensures
        chars::lower(stream_info::spec_normalize_ext(raw)) == stream_info::spec_normalize_ext(raw),
        chars::lower(stream_info::spec_normalize_mime(raw)) == stream_info::spec_normalize_mime(
            raw,
        ),
{
    lemma_lower_twice(chars::trim_start_char(chars::trim(raw), '.'));
    lemma_lower_twice(chars::trim(chars::split(raw, ";"@)[0]));
}

proof fn lemma_lower_twice(s: Seq<char>)
    ensures
        chars::lower(chars::lower(s)) == chars::lower(s),
{
    let l = chars::lower(s);
    assert forall|i: int| 0 <= i < s.len() implies chars::lower1(l[i]) == l[i] by {
        lemma_small(s[i]);
    }
    assert(chars::lower(l) =~= l);
}

proof fn lemma_small(c: char)
    ensures
        chars::lower1(chars::lower1(c)) == chars::lower1(c),
{
}

/// A table of objects keeps one row more than is shown, or all where there are fewer.
pub proof fn tables_of_objects_keep_one_row_more(items: Seq<JsonV>, max_rows: nat)
    ensures
        json::spec_value_to_table(JsonV::Array(items), max_rows) matches Some(t) ==> t.rows.len()
            == (if items.len() < max_rows + 1 {
            items.len()
        } else {
            max_rows + 1
        }),
        items.len() > 2 * max_rows ==> json::spec_value_to_table(JsonV::Array(items), max_rows)
            is None,
{
}

/// A budget counts each byte and each member, and fails where the count goes beyond the
/// limit.
pub proof fn budgets_count_what_is_spent(b: BudgetV, bytes: u64)
    ensures
        b.expanded + bytes <= u64::MAX ==> b.expand(bytes).expanded == b.expanded + bytes,
        b.expanded + bytes > u64::MAX ==> b.expand(bytes).expanded == u64::MAX,
        b.expand(bytes).embedded == b.embedded && b.expand(bytes).limits == b.limits,
        b.embedded < u64::MAX ==> b.embed().embedded == b.embedded + 1,
        b.embed().expanded == b.expanded && b.embed().limits == b.limits,
        b.expanded + bytes <= u64::MAX ==> b.expand_fails(bytes) == (b.expanded + bytes
            > b.limits.max_expanded_bytes),
        b.embedded < u64::MAX ==> b.embed_fails() == (b.embedded + 1
            > b.limits.max_embedded_documents),
{
}

} // verus!

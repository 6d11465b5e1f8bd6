//! What XML, feeds, books and presentations keep.

use vstd::prelude::*;
use crate::bytes;
use crate::chars;
use crate::converters;
use crate::converters::epub;
use crate::converters::epub::PackageV;
use crate::converters::ooxml;
use crate::converters::ooxml::SlideV;
use crate::converters::xml;
use crate::converters::xml::{EventV, NodeV, Progress, RawAttrV};
use crate::cx::CxV;
use crate::fidelity;
use crate::ir;
use crate::ir::{BlockV, DocumentV, SpanV};

verus! {

/// The text that an event carries.
pub open spec fn event_text(e: EventV) -> Seq<char> {
    match e {
        EventV::Text(Some(t)) => t,
        EventV::CData(b) => bytes::lossy(b),
        _ => seq![],
    }
}

/// How many elements are open.
pub open spec fn depth(events: Seq<EventV>) -> nat
    decreases events.len(),
{
    if events.len() == 0 {
        0
    } else {
        let d = depth(events.drop_last());
        match events.last() {
            EventV::Start(..) => d + 1,
            EventV::End => if d > 0 {
                (d - 1) as nat
            } else {
                0
            },
            _ => d,
        }
    }
}

/// The text since the outermost open element opened.
pub open spec fn inner_text(events: Seq<EventV>) -> Seq<char>
    decreases events.len(),
{
    if events.len() == 0 || depth(events) == 0 || depth(events.drop_last()) == 0 {
        seq![]
    } else {
        inner_text(events.drop_last()) + event_text(events.last())
    }
}

/// How many elements were opened.
pub open spec fn openings(events: Seq<EventV>) -> nat
    decreases events.len(),
{
    if events.len() == 0 {
        0
    } else {
        openings(events.drop_last()) + (if events.last() is Start || events.last() is Empty {
            1nat
        } else {
            0
        })
    }
}

spec fn stack_texts(p: Progress) -> Seq<Seq<char>> {
    Seq::new(p.stack.len(), |i: int| p.stack[i].text)
}

proof fn lemma_stack_swap(stack: Seq<NodeV>, n: NodeV)
    requires
        stack.len() > 0,
    ensures
        fidelity::all_strokes(
            stack_texts(Progress { stack: stack.drop_last().push(n), nodes: seq![] }),
            ' ',
        ) == fidelity::all_strokes(
            stack_texts(Progress { stack: stack.drop_last(), nodes: seq![] }),
            ' ',
        ) + fidelity::strokes(n.text, ' '),
{
    let a = stack_texts(Progress { stack: stack.drop_last().push(n), nodes: seq![] });
    let b = stack_texts(Progress { stack: stack.drop_last(), nodes: seq![] });
    assert(a.drop_last() =~= b);
}

proof fn lemma_stack(p: Progress)
    requires
        p.stack.len() > 0,
    ensures
        fidelity::all_strokes(stack_texts(p), ' ') == fidelity::all_strokes(
            stack_texts(Progress { stack: p.stack.drop_last(), nodes: seq![] }),
            ' ',
        ) + fidelity::strokes(p.stack.last().text, ' '),
{
    lemma_stack_swap(p.stack, p.stack.last());
    assert(p.stack.drop_last().push(p.stack.last()) =~= p.stack);
    assert(stack_texts(p) =~= stack_texts(Progress { stack: p.stack, nodes: seq![] }));
}

proof fn lemma_run(events: Seq<EventV>)
    ensures
        xml::run(events).stack.len() == depth(events),
        xml::run(events).nodes.len() + depth(events) == openings(events),
        fidelity::all_strokes(stack_texts(xml::run(events)), ' ') == fidelity::strokes(
            inner_text(events),
            ' ',
        ),
    decreases events.len(),
{
    if events.len() == 0 {
        assert(stack_texts(xml::run(events)) =~= seq![]);
    } else {
        let before = events.drop_last();
        lemma_run(before);
        let p = xml::run(before);
        let r = xml::run(events);
        let e = events.last();
        let none = Seq::<char>::empty();
        assert(inner_text(before) + none =~= inner_text(before));
        match e {
            EventV::Start(n, a) => {
                let o = xml::opened(p.stack, n, a);
                assert(stack_texts(r).drop_last() =~= stack_texts(p));
                assert(fidelity::strokes(o.text, ' ') =~= seq![]);
                if depth(before) == 0 {
                    assert(stack_texts(p) =~= seq![]);
                }
            },
            EventV::Empty(n, a) => {
                assert(stack_texts(r) =~= stack_texts(p));
            },
            EventV::Other => {},
            EventV::Text(_) => {
                lemma_text(p, event_text(e));
                fidelity::lemma_strokes_concat(inner_text(before), event_text(e), ' ');
            },
            EventV::CData(_) => {
                lemma_text(p, event_text(e));
                fidelity::lemma_strokes_concat(inner_text(before), event_text(e), ' ');
            },
            EventV::End => {
                lemma_close(p);
                if depth(before) <= 1 {
                    assert(stack_texts(r) =~= seq![]);
                }
            },
        }
    }
}

proof fn lemma_text(p: Progress, t: Seq<char>)
    ensures
        xml::add_text(p, t).stack.len() == p.stack.len(),
        xml::add_text(p, t).nodes == p.nodes,
        p.stack.len() > 0 ==> fidelity::all_strokes(stack_texts(xml::add_text(p, t)), ' ')
            == fidelity::all_strokes(stack_texts(p), ' ') + fidelity::strokes(t, ' '),
{
    if p.stack.len() > 0 {
        let n = p.stack.last().with_text(t);
        let r = xml::add_text(p, t);
        lemma_stack(p);
        lemma_stack_swap(p.stack, n);
        assert(stack_texts(r) =~= stack_texts(
            Progress { stack: p.stack.drop_last().push(n), nodes: seq![] },
        ));
        fidelity::lemma_strokes_concat(p.stack.last().text, t, ' ');
        let a = fidelity::all_strokes(
            stack_texts(Progress { stack: p.stack.drop_last(), nodes: seq![] }),
            ' ',
        );
        assert(a + (fidelity::strokes(p.stack.last().text, ' ') + fidelity::strokes(t, ' ')) =~= a
            + fidelity::strokes(p.stack.last().text, ' ') + fidelity::strokes(t, ' '));
    }
}

proof fn lemma_close(p: Progress)
    ensures
        p.stack.len() > 0 ==> xml::close(p).stack.len() == p.stack.len() - 1,
        p.stack.len() > 0 ==> xml::close(p).nodes == p.nodes.push(p.stack.last()),
        p.stack.len() > 1 ==> fidelity::all_strokes(stack_texts(xml::close(p)), ' ')
            == fidelity::all_strokes(stack_texts(p), ' '),
{
    if p.stack.len() > 1 {
        let node = p.stack.last();
        let rest = p.stack.drop_last();
        let r = xml::close(p);
        let q = Progress { stack: rest, nodes: seq![] };
        lemma_stack(p);
        lemma_stack(q);
        if chars::is_blank(node.text) {
            fidelity::lemma_strokes_blank(node.text, ' ');
            assert(stack_texts(r) =~= stack_texts(q));
        } else {
            let n = NodeV { text: rest.last().text + " "@ + node.text, ..rest.last() };
            lemma_stack_swap(rest, n);
            assert(stack_texts(r) =~= stack_texts(
                Progress { stack: rest.drop_last().push(n), nodes: seq![] },
            ));
            reveal_strlit(" ");
            assert(" "@ =~= seq![' ']);
            fidelity::lemma_strokes_one(' ', ' ');
            fidelity::lemma_strokes_concat(rest.last().text, " "@, ' ');
            fidelity::lemma_strokes_concat(rest.last().text + " "@, node.text, ' ');
            let a = fidelity::all_strokes(
                stack_texts(Progress { stack: rest.drop_last(), nodes: seq![] }),
                ' ',
            );
            let x = fidelity::strokes(rest.last().text, ' ');
            let y = fidelity::strokes(node.text, ' ');
            assert(x + Seq::<char>::empty() + y =~= x + y);
            assert(a + (x + y) =~= a + x + y);
        }
    }
}

/// Every element that opens is handed out once, when it closes; and an outermost
/// element has all the text inside it, in its order, but for white space.
pub proof fn elements_gather_their_text(events: Seq<EventV>)
    ensures
        xml::run(events).nodes.len() + depth(events) == openings(events),
        events.len() > 0 && events.last() is End && depth(events) == 0 && depth(
            events.drop_last(),
        ) == 1 ==> fidelity::strokes(xml::run(events).nodes.last().text, ' ') == fidelity::strokes(
            inner_text(events.drop_last()),
            ' ',
        ),
{
    lemma_run(events);
    if events.len() > 0 && events.last() is End && depth(events.drop_last()) == 1 {
        let before = events.drop_last();
        lemma_run(before);
        let p = xml::run(before);
        lemma_close(p);
        lemma_stack(p);
        assert(stack_texts(Progress { stack: p.stack.drop_last(), nodes: seq![] }) =~= seq![]);
        assert(Seq::<char>::empty() + fidelity::strokes(p.stack.last().text, ' ')
            =~= fidelity::strokes(p.stack.last().text, ' '));
    }
}

/// The texts, one event each.
pub open spec fn text_events(texts: Seq<Seq<char>>) -> Seq<EventV> {
    Seq::new(texts.len(), |i: int| EventV::Text(Some(texts[i])))
}

/// The texts in one.
pub open spec fn concat(texts: Seq<Seq<char>>) -> Seq<char>
    decreases texts.len(),
{
    if texts.len() == 0 {
        seq![]
    } else {
        concat(texts.drop_last()) + texts.last()
    }
}

proof fn lemma_texts_run(events: Seq<EventV>, texts: Seq<Seq<char>>)
    requires
        xml::run(events).stack.len() > 0,
        xml::run(events).stack.last().text == Seq::<char>::empty(),
        xml::run(events).stack.last().own_text == Seq::<char>::empty(),
    ensures
        ({
            let p = xml::run(events);
            let r = xml::run(events + text_events(texts));
            &&& r.nodes == p.nodes
            &&& r.stack == p.stack.drop_last().push(
                NodeV { text: concat(texts), own_text: concat(texts), ..p.stack.last() },
            )
        }),
    decreases texts.len(),
{
    let p = xml::run(events);
    if texts.len() == 0 {
        assert(events + text_events(texts) =~= events);
        assert(p.stack =~= p.stack.drop_last().push(p.stack.last()));
    } else {
        let before = texts.drop_last();
        lemma_texts_run(events, before);
        let all = events + text_events(texts);
        assert(all.drop_last() =~= events + text_events(before));
        assert(all.last() == EventV::Text(Some(texts.last())));
        let q = xml::run(all.drop_last());
        assert(q.stack.drop_last() =~= p.stack.drop_last());
        assert(xml::run(all) == xml::add_text(q, texts.last()));
    }
}

/// An element that holds nothing but text is handed out with that text, with its
/// attributes and with its name behind the names of those round it.
pub proof fn leaf_elements_hold_their_text(
    events: Seq<EventV>,
    name: Seq<u8>,
    attrs: Seq<RawAttrV>,
    texts: Seq<Seq<char>>,
)
    ensures
        ({
            let all = events.push(EventV::Start(name, attrs)) + text_events(texts) + seq![
                EventV::End,
            ];
            let before = xml::run(events);
            let nodes = xml::run(all).nodes;
            let n = nodes.last();
            &&& nodes.drop_last() == before.nodes
            &&& n.own_text == concat(texts)
            &&& n.text == concat(texts)
            &&& n.name() == xml::spec_local_name(name)
            &&& before.stack.len() > 0 ==> n.path.drop_last() == before.stack.last().path
            &&& before.stack.len() == 0 ==> n.path.len() == 1
            &&& n.attrs == xml::spec_attributes(attrs)
            &&& xml::run(all).stack.len() == before.stack.len()
        }),
{
    let start = events.push(EventV::Start(name, attrs));
    let before = xml::run(events);
    assert(start.drop_last() =~= events);
    let p = xml::run(start);
    let o = xml::opened(before.stack, name, attrs);
    assert(p.stack == before.stack.push(o));
    assert(p.stack.drop_last() =~= before.stack);
    lemma_texts_run(start, texts);
    let mid = start + text_events(texts);
    let all = mid + seq![EventV::End];
    assert(all.drop_last() =~= mid);
    assert(all.last() == EventV::End);
    let q = xml::run(mid);
    assert(q.stack.drop_last() =~= before.stack);
    let nodes = xml::run(all).nodes;
    assert(nodes.drop_last() =~= before.nodes);
    let path = o.path;
    if before.stack.len() > 0 {
        assert(path.drop_last() =~= before.stack.last().path);
    }
}

/// The texts of the elements that are picked and say anything.
pub open spec fn picked(nodes: Seq<NodeV>, pick: spec_fn(NodeV) -> bool) -> Seq<Seq<char>>
    decreases nodes.len(),
{
    if nodes.len() == 0 {
        seq![]
    } else if pick(nodes.last()) && !chars::is_blank(nodes.last().text) {
        picked(nodes.drop_last(), pick).push(nodes.last().text)
    } else {
        picked(nodes.drop_last(), pick)
    }
}

/// The notes of a part are its paragraphs that say anything, in their order.
pub proof fn notes_keep_their_paragraphs(nodes: Seq<NodeV>)
    ensures
        fidelity::same_words(
            ooxml::para_texts(nodes),
            picked(nodes, |n: NodeV| n.name() == "p"@),
        ),
    decreases nodes.len(),
{
    if nodes.len() > 0 {
        notes_keep_their_paragraphs(nodes.drop_last());
        let t = nodes.last().text;
        fidelity::lemma_squeeze_blank(t);
        converters::squeezing_is_idempotent(t);
        fidelity::lemma_same_words_push(
            ooxml::para_texts(nodes.drop_last()),
            picked(nodes.drop_last(), |n: NodeV| n.name() == "p"@),
            converters::spec_squeeze(t),
            t,
        );
    }
}

/// A part's notes stand under a heading with their label, one paragraph each.
pub proof fn notes_stand_under_their_label(label: Seq<char>, notes: Seq<Seq<char>>)
    ensures
        notes.len() == 0 ==> ooxml::notes_blocks(label, notes).len() == 0,
        notes.len() > 0 ==> ({
            let b = ooxml::notes_blocks(label, notes);
            &&& fidelity::block_texts(b) == seq![label] + notes
            &&& b[0] is Heading
            &&& forall|k: int| 0 < k < b.len() ==> (#[trigger] b[k]) is Paragraph
        }),
{
    let h = BlockV::Heading { level: 2, text: seq![SpanV::Text(label)] };
    fidelity::lemma_plain_text(label);
    let none = Seq::<BlockV>::empty();
    fidelity::lemma_block_texts_push(none, h);
    assert(none.push(h) =~= seq![h]);
    assert(fidelity::block_texts(none) =~= seq![]);
    fidelity::lemma_block_texts_concat(seq![h], ooxml::text_paragraphs(notes));
    lemma_text_paragraphs(notes);
    assert(fidelity::block_texts(seq![h]) =~= seq![label]);
}

proof fn lemma_text_paragraphs(texts: Seq<Seq<char>>)
    ensures
        fidelity::block_texts(ooxml::text_paragraphs(texts)) == texts,
    decreases texts.len(),
{
    let bs = ooxml::text_paragraphs(texts);
    if texts.len() > 0 {
        lemma_text_paragraphs(texts.drop_last());
        assert(bs.drop_last() =~= ooxml::text_paragraphs(texts.drop_last()));
        fidelity::lemma_plain_text(texts.last());
        assert(fidelity::texts_of(bs.last()) == seq![texts.last()]);
        assert(texts.drop_last() + seq![texts.last()] =~= texts);
    } else {
        assert(fidelity::block_texts(bs) =~= texts);
    }
}

/// An element of a chapter that is shown: a heading, a paragraph, a quotation or a
/// list item.
pub open spec fn is_chapter_element(n: NodeV) -> bool {
    n.name() == "p"@ || n.name() == "blockquote"@ || n.name() == "li"@ || exists|k: nat|
        1 <= k <= 6 && n.name() == #[trigger] heading_name(k)
}

pub open spec fn heading_name(k: nat) -> Seq<char> {
    seq!['h', chars::digit(k)]
}

proof fn lemma_heading_name(k: nat)
    requires
        1 <= k <= 6,
    ensures
        epub::heading_of(heading_name(k)) == Some(k as u8),
{
    reveal_strlit("h");
    let name = heading_name(k);
    let rest = name.skip(1);
    assert(name.take(1) =~= "h"@);
    assert(rest =~= seq![chars::digit(k)]);
    assert(chars::digit(k) as u32 == 48 + k);
    assert(rest.drop_last() =~= seq![]);
    assert(chars::value(rest.drop_last()) == 0);
    assert(rest[0] == chars::digit(k));
    assert(chars::strip_plus(rest) == rest);
    assert(rest.last() == chars::digit(k));
    assert(chars::value(rest) == k);
    assert(chars::all_digits(rest));
}

/// A heading element of a chapter becomes a heading of its level.
pub proof fn chapter_headings_keep_their_level(n: NodeV, k: nat)
    requires
        1 <= k <= 6,
        n.name() == heading_name(k),
        !chars::is_blank(n.text),
    ensures
        epub::chapter_block(n) matches Some(BlockV::Heading { level, text }) && level == k
            && chars::words(ir::plain(text)) == chars::words(n.text),
{
    lemma_heading_name(k);
    fidelity::lemma_squeeze_blank(n.text);
    converters::squeezing_is_idempotent(n.text);
    fidelity::lemma_plain_text(converters::spec_squeeze(n.text));
}

/// A chapter's blocks show its headings, paragraphs, quotations and list items,
/// each with its words and in the order of the chapter.
pub proof fn chapters_keep_their_text(nodes: Seq<NodeV>)
    requires
        forall|i: int|
            0 <= i < nodes.len() ==> (epub::heading_of((#[trigger] nodes[i]).name()) is Some
                ==> is_chapter_element(nodes[i])),
    ensures
        fidelity::same_words(
            fidelity::block_texts(epub::spec_chapter_blocks(nodes)),
            picked(nodes, |n: NodeV| is_chapter_element(n)),
        ),
    decreases nodes.len(),
{
    if nodes.len() > 0 {
        let before = nodes.drop_last();
        assert forall|i: int| 0 <= i < before.len() implies (epub::heading_of(
            (#[trigger] before[i]).name(),
        ) is Some ==> is_chapter_element(before[i])) by {
            assert(before[i] == nodes[i]);
        }
        chapters_keep_their_text(before);
        let n = nodes[nodes.len() - 1];
        let t = converters::spec_squeeze(n.text);
        fidelity::lemma_squeeze_blank(n.text);
        converters::squeezing_is_idempotent(n.text);
        fidelity::lemma_plain_text(t);
        let a = fidelity::block_texts(epub::spec_chapter_blocks(before));
        let b = picked(before, |n: NodeV| is_chapter_element(n));
        fidelity::lemma_same_words_push(a, b, t, n.text);
        if is_chapter_element(n) && !(n.name() == "p"@ || n.name() == "blockquote"@ || n.name()
            == "li"@) {
            let k = choose|k: nat| 1 <= k <= 6 && n.name() == #[trigger] heading_name(k);
            lemma_heading_name(k);
        }
        if let Some(block) = epub::chapter_block(n) {
            fidelity::lemma_block_texts_push(epub::spec_chapter_blocks(before), block);
            assert(fidelity::texts_of(block) == seq![t]);
            assert(a + seq![t] =~= a.push(t));
        }
    } else {
        assert(fidelity::block_texts(epub::spec_chapter_blocks(nodes)) =~= seq![]);
    }
}

/// The blocks begin with these.
pub open spec fn begins_with(bs: Seq<BlockV>, front: Seq<BlockV>) -> bool {
    front.len() <= bs.len() && bs.take(front.len() as int) == front
}

pub(crate) proof fn lemma_begins(a: Seq<BlockV>, b: Seq<BlockV>, c: Seq<BlockV>)
    requires
        begins_with(a, b),
        begins_with(b, c),
    ensures
        begins_with(a, c),
{
    assert(a.take(c.len() as int) =~= b.take(c.len() as int)) by {
        assert forall|i: int| 0 <= i < c.len() implies a[i] == b[i] by {
            assert(a.take(b.len() as int)[i] == b[i]);
        }
    }
}

proof fn lemma_begins_extended(a: Seq<BlockV>, b: Seq<BlockV>)
    ensures
        begins_with(a + b, a),
{
    assert((a + b).take(a.len() as int) =~= a);
}

proof fn lemma_spine_grows(
    bytes: Seq<u8>,
    p: PackageV,
    base: Seq<char>,
    i: int,
    d: DocumentV,
    c: CxV,
)
    ensures
        epub::with_spine(bytes, p, base, i, d, c).0 matches Ok(r) ==> begins_with(
            r.blocks,
            d.blocks,
        ),
    decreases p.spine.len() - i,
{
    assert(d.blocks.take(d.blocks.len() as int) =~= d.blocks);
    if 0 <= i < p.spine.len() {
        let s = epub::with_spine_item(bytes, p, base, p.spine[i], d, c);
        if let Ok(e) = s.0 {
            lemma_spine_grows(bytes, p, base, i + 1, e, s.1);
            assert(begins_with(e.blocks, d.blocks)) by {
                if e.blocks != d.blocks {
                    assert(e.blocks.take(d.blocks.len() as int) =~= d.blocks);
                }
            }
            if let Ok(r) = epub::with_spine(bytes, p, base, i + 1, e, s.1).0 {
                lemma_begins(r.blocks, e.blocks, d.blocks);
            }
        }
    }
}

/// A book is read in the order of its spine: the blocks of a chapter follow those of
/// the items before it, and those of the items after it follow them.
pub proof fn books_follow_their_spine(
    bytes: Seq<u8>,
    p: PackageV,
    base: Seq<char>,
    i: int,
    d: DocumentV,
    c: CxV,
    href: Seq<char>,
    source: Seq<char>,
)
    requires
        0 <= i < p.spine.len(),
        !p.nav_ids.contains(p.spine[i]),
        ir::lookup(p.manifest, p.spine[i]) == Some(href),
        ooxml::spec_read_part(bytes, epub::spec_normalise(base + href), c).0 == Ok::<
            Option<Seq<char>>,
            crate::error::ErrorV,
        >(Some(source)),
    ensures
        epub::with_spine(bytes, p, base, i, d, c).0 matches Ok(r) ==> begins_with(
            r.blocks,
            d.blocks + epub::spec_chapter_blocks(xml::spec_nodes(source)),
        ),
{
    let s = epub::with_spine_item(bytes, p, base, p.spine[i], d, c);
    if let Ok(e) = s.0 {
        assert(e.blocks == d.blocks + epub::spec_chapter_blocks(xml::spec_nodes(source)));
        lemma_spine_grows(bytes, p, base, i + 1, e, s.1);
    }
}

/// No element belongs to a table.
pub open spec fn is_tableless(nodes: Seq<NodeV>) -> bool {
    forall|i: int|
        0 <= i < nodes.len() ==> !(#[trigger] nodes[i]).under("tbl"@) && nodes[i].name() != "tbl"@
            && nodes[i].name() != "tc"@ && nodes[i].name() != "tr"@
}

/// A slide without tables shows its paragraphs, each with its words and in the order
/// of the slide.
pub proof fn slides_keep_their_text(nodes: Seq<NodeV>)
    requires
        is_tableless(nodes),
    ensures
        fidelity::same_words(
            fidelity::block_texts(ooxml::slide_run(nodes).blocks),
            picked(nodes, |n: NodeV| n.name() == "p"@),
        ),
    decreases nodes.len(),
{
    if nodes.len() > 0 {
        let before = nodes.drop_last();
        assert forall|i: int| 0 <= i < before.len() implies !(#[trigger] before[i]).under("tbl"@)
            && before[i].name() != "tbl"@ && before[i].name() != "tc"@ && before[i].name()
            != "tr"@ by {
            assert(before[i] == nodes[i]);
        }
        slides_keep_their_text(before);
        let n = nodes[nodes.len() - 1];
        let t = converters::spec_squeeze(n.text);
        fidelity::lemma_squeeze_blank(n.text);
        converters::squeezing_is_idempotent(n.text);
        fidelity::lemma_plain_text(t);
        let bs = ooxml::slide_run(before).blocks;
        let a = fidelity::block_texts(bs);
        fidelity::lemma_same_words_push(
            a,
            picked(before, |n: NodeV| n.name() == "p"@),
            t,
            n.text,
        );
        let b = BlockV::Paragraph(seq![SpanV::Text(t)]);
        fidelity::lemma_block_texts_push(bs, b);
        assert(fidelity::texts_of(b) == seq![t]);
        assert(a + seq![t] =~= a.push(t));
    } else {
        assert(fidelity::block_texts(ooxml::slide_run(nodes).blocks) =~= seq![]);
    }
}

proof fn lemma_slides_grow(
    bytes: Seq<u8>,
    slides: Seq<SlideV>,
    i: int,
    d: DocumentV,
    c: CxV,
)
    ensures
        ooxml::with_slides(bytes, slides, i, d, c).0 matches Ok(r) ==> begins_with(
            r.blocks,
            d.blocks,
        ),
    decreases slides.len() - i,
{
    assert(d.blocks.take(d.blocks.len() as int) =~= d.blocks);
    if i < slides.len() {
        let s = ooxml::with_slide(bytes, slides[i], d, c);
        if let Ok(e) = s.0 {
            lemma_slides_grow(bytes, slides, i + 1, e, s.1);
            assert(begins_with(e.blocks, d.blocks)) by {
                assert(e.blocks.take(d.blocks.len() as int) =~= d.blocks);
            }
            if let Ok(r) = ooxml::with_slides(bytes, slides, i + 1, e, s.1).0 {
                lemma_begins(r.blocks, e.blocks, d.blocks);
            }
        }
    }
}

/// The title of a slide's section.
pub open spec fn slide_title(b: BlockV, k: nat) -> bool {
    b matches BlockV::Heading { level, text } && level == 2 && ir::plain(text) == "Slide "@
        + chars::decimal(k)
}

/// A presentation shows its slides one after the other, each under its number, with
/// what the slide says behind it.
pub proof fn slides_follow_each_other(
    bytes: Seq<u8>,
    slides: Seq<SlideV>,
    i: int,
    d: DocumentV,
    c: CxV,
    source: Seq<char>,
)
    requires
        0 <= i < slides.len(),
        ooxml::spec_read_part(bytes, slides[i].1, c).0 == Ok::<
            Option<Seq<char>>,
            crate::error::ErrorV,
        >(Some(source)),
    ensures
        ooxml::with_slides(bytes, slides, i, d, c).0 matches Ok(r) ==> {
            let n = d.blocks.len() as int;
            let said = ooxml::slide_run(xml::spec_nodes(source)).blocks;
            &&& begins_with(r.blocks, d.blocks)
            &&& r.blocks.len() >= n + 1 + said.len()
            &&& slide_title(r.blocks[n], slides[i].0)
            &&& r.blocks.subrange(n + 1, n + 1 + said.len()) == said
        },
{
    let s = ooxml::with_slide(bytes, slides[i], d, c);
    if let Ok(e) = s.0 {
        lemma_slides_grow(bytes, slides, i + 1, e, s.1);
        lemma_slides_grow(bytes, slides, i, d, c);
        if let Ok(r) = ooxml::with_slides(bytes, slides, i, d, c).0 {
            let said = ooxml::slide_run(xml::spec_nodes(source)).blocks;
            let h = ooxml::slide_heading(slides[i].0);
            let front = d.blocks.push(h) + said;
            fidelity::lemma_plain_text("Slide "@ + chars::decimal(slides[i].0));
            assert(begins_with(e.blocks, front)) by {
                assert(e.blocks.take(front.len() as int) =~= front);
            }
            lemma_begins(r.blocks, e.blocks, front);
            let n = d.blocks.len() as int;
            assert forall|k: int| 0 <= k < front.len() implies r.blocks[k] == front[k] by {
                assert(r.blocks.take(front.len() as int)[k] == front[k]);
            }
            assert(front[n] == h);
            assert(r.blocks[n] == front[n]);
            assert forall|j: int| 0 <= j < said.len() implies r.blocks[n + 1 + j] == said[j] by {
                assert(front[n + 1 + j] == said[j]);
                assert(r.blocks[n + 1 + j] == front[n + 1 + j]);
            }
            assert(r.blocks.subrange(n + 1, n + 1 + said.len()) =~= said);
        }
    }
}

/// Speaker notes are quoted, paragraph by paragraph, under a label.
pub proof fn speaker_notes_are_quoted(texts: Seq<Seq<char>>)
    ensures
        ooxml::notes_quote(texts) matches BlockV::Quote(inner) && inner.len() == texts.len() + 1
            && fidelity::block_texts(inner).skip(1) == texts && inner[0] is Paragraph,
{
    let label = BlockV::Paragraph(seq![SpanV::Strong(seq![SpanV::Text("Speaker notes"@)])]);
    let none = Seq::<BlockV>::empty();
    fidelity::lemma_block_texts_push(none, label);
    assert(none.push(label) =~= seq![label]);
    assert(fidelity::block_texts(none) =~= seq![]);
    fidelity::lemma_block_texts_concat(seq![label], ooxml::text_paragraphs(texts));
    lemma_text_paragraphs(texts);
    let all = fidelity::block_texts(seq![label] + ooxml::text_paragraphs(texts));
    assert(fidelity::block_texts(seq![label]).len() == 1);
    assert(all.skip(1) =~= texts);
}

/// An element is shown: it says something itself, or it has attributes.
pub open spec fn is_shown(n: NodeV) -> bool {
    !chars::is_blank(n.own_text) || n.attrs.len() > 0
}

pub open spec fn shown_elements(nodes: Seq<NodeV>) -> Seq<NodeV>
    decreases nodes.len(),
{
    if nodes.len() == 0 {
        seq![]
    } else if is_shown(nodes.last()) {
        shown_elements(nodes.drop_last()).push(nodes.last())
    } else {
        shown_elements(nodes.drop_last())
    }
}

/// The text shows the element: its name, and its own words or its attributes.
pub open spec fn shows_element(t: Seq<char>, n: NodeV) -> bool {
    &&& chars::starts_with(t, n.name())
    &&& !chars::is_blank(n.own_text) ==> {
        let rest = t.skip(n.name().len() as int);
        rest.len() >= 2 && rest[0] == ':' && rest[1] == ' ' && chars::words(rest.skip(2))
            == chars::words(n.own_text)
    }
    &&& chars::is_blank(n.own_text) && n.attrs.len() == 1 ==> t == n.name() + " ("@ + (n.attrs[0].0
        + "="@ + n.attrs[0].1) + ")"@
}

/// An XML document shows every element that says anything, in the order in which the
/// elements close.
pub proof fn xml_keeps_its_elements(nodes: Seq<NodeV>)
    ensures
        ({
            let texts = fidelity::block_texts(xml::xml_blocks(nodes));
            let shown = shown_elements(nodes);
            texts.len() == shown.len() && forall|k: int|
                0 <= k < texts.len() ==> shows_element(#[trigger] texts[k], shown[k])
        }),
    decreases nodes.len(),
{
    let texts = fidelity::block_texts(xml::xml_blocks(nodes));
    let shown = shown_elements(nodes);
    if nodes.len() == 0 {
        assert(texts =~= seq![]);
    } else {
        let before = nodes.drop_last();
        xml_keeps_its_elements(before);
        let n = nodes.last();
        fidelity::lemma_squeeze_blank(n.own_text);
        if let Some(b) = xml::xml_block(n) {
            lemma_shown(n, b);
            let t = fidelity::texts_of(b)[0];
            let old_texts = fidelity::block_texts(xml::xml_blocks(before));
            fidelity::lemma_block_texts_push(xml::xml_blocks(before), b);
            assert(texts =~= old_texts.push(t));
            assert forall|k: int| 0 <= k < texts.len() implies shows_element(
                #[trigger] texts[k],
                shown[k],
            ) by {
                if k < old_texts.len() {
                    assert(texts[k] == old_texts[k]);
                    assert(shown[k] == shown_elements(before)[k]);
                }
            }
        }
    }
}

proof fn lemma_shown(n: NodeV, b: BlockV)
    requires
        xml::xml_block(n) == Some(b),
    ensures
        fidelity::texts_of(b).len() == 1,
        shows_element(fidelity::texts_of(b)[0], n),
{
    let content = converters::spec_squeeze(n.own_text);
    let name = n.name();
    let strong = SpanV::Strong(seq![SpanV::Text(name)]);
    fidelity::lemma_squeeze_blank(n.own_text);
    converters::squeezing_is_idempotent(n.own_text);
    fidelity::lemma_plain_text(name);
    let t = fidelity::texts_of(b)[0];
    if content.len() > 0 {
        reveal_strlit(": ");
        let s = seq![strong, SpanV::Text(": "@), SpanV::Text(content)];
        let none = Seq::<SpanV>::empty();
        fidelity::lemma_plain_push(none, strong);
        fidelity::lemma_plain_push(none.push(strong), SpanV::Text(": "@));
        fidelity::lemma_plain_push(
            none.push(strong).push(SpanV::Text(": "@)),
            SpanV::Text(content),
        );
        assert(none.push(strong).push(SpanV::Text(": "@)).push(SpanV::Text(content)) =~= s);
        assert(ir::plain(none) =~= seq![]);
        assert(ir::plain_span(strong) == name);
        assert(ir::plain(s) =~= name + ": "@ + content);
        assert(t.take(name.len() as int) =~= name);
        let rest = t.skip(name.len() as int);
        assert(rest =~= ": "@ + content);
        assert(rest.skip(2) =~= content);
    } else {
        let list = " ("@ + chars::join(xml::attr_texts(n.attrs), ", "@) + ")"@;
        let s = seq![strong, SpanV::Text(list)];
        let none = Seq::<SpanV>::empty();
        fidelity::lemma_plain_push(none, strong);
        fidelity::lemma_plain_push(none.push(strong), SpanV::Text(list));
        assert(none.push(strong).push(SpanV::Text(list)) =~= s);
        assert(ir::plain(none) =~= seq![]);
        assert(ir::plain_span(strong) == name);
        assert(ir::plain(s) =~= name + list);
        assert(t.take(name.len() as int) =~= name);
        if n.attrs.len() == 1 {
            let one = n.attrs[0].0 + "="@ + n.attrs[0].1;
            assert(xml::attr_texts(n.attrs) =~= seq![one]);
            assert(t =~= name + " ("@ + one + ")"@);
        }
    }
}

} // verus!

//! What Word documents keep.

use vstd::prelude::*;
use crate::chars;
use crate::converters::ooxml;
use crate::converters::ooxml::{RunV, WalkV};
use crate::converters::xml::NodeV;
use crate::fidelity;
use crate::ir;
use crate::ir::{BlockV, SpanV};

verus! {

/// Text without the control character that marks links on the way.
pub open spec fn is_unmarked(s: Seq<char>) -> bool {
    !s.contains('\u{1}')
}

/// What the element adds to the text of its paragraph.
pub open spec fn piece(n: NodeV) -> Seq<char> {
    if n.name() == "t"@ {
        n.own_text
    } else if n.name() == "tab"@ {
        seq![' ']
    } else if n.name() == "br"@ {
        seq!['\n']
    } else {
        seq![]
    }
}

/// The text since the last paragraph ended.
pub open spec fn open_text(nodes: Seq<NodeV>) -> Seq<char>
    decreases nodes.len(),
{
    if nodes.len() == 0 || nodes.last().name() == "p"@ {
        seq![]
    } else {
        open_text(nodes.drop_last()) + piece(nodes.last())
    }
}

/// The texts of the paragraphs that say anything, in order.
pub open spec fn paragraphs(nodes: Seq<NodeV>) -> Seq<Seq<char>>
    decreases nodes.len(),
{
    if nodes.len() == 0 {
        seq![]
    } else {
        let before = paragraphs(nodes.drop_last());
        if nodes.last().name() == "p"@ && !chars::is_blank(open_text(nodes.drop_last())) {
            before.push(open_text(nodes.drop_last()))
        } else {
            before
        }
    }
}

/// The style that the paragraph under way was given.
pub open spec fn open_style(nodes: Seq<NodeV>) -> Option<Seq<char>>
    decreases nodes.len(),
{
    if nodes.len() == 0 || nodes.last().name() == "p"@ {
        None
    } else if nodes.last().name() == "pstyle"@ {
        nodes.last().attr("val"@)
    } else {
        open_style(nodes.drop_last())
    }
}

/// No element stands in a table, and no text or target holds the mark.
pub open spec fn is_running_text(
    nodes: Seq<NodeV>,
    rels: Seq<(Seq<char>, Seq<char>)>,
) -> bool {
    &&& forall|i: int|
        0 <= i < nodes.len() ==> ooxml::count_name((#[trigger] nodes[i]).path, "tbl"@) == 0
            && is_unmarked(nodes[i].own_text)
    &&& forall|i: int| 0 <= i < rels.len() ==> is_unmarked((#[trigger] rels[i]).1)
}

/// The text of one run.
pub open spec fn run_text(r: RunV) -> Seq<char> {
    match ooxml::run_span(r) {
        Some(s) => ir::plain_span(s),
        None => seq![],
    }
}

spec fn runs_text(runs: Seq<RunV>) -> Seq<char> {
    ir::plain(ooxml::spec_runs_to_inline(runs))
}

proof fn lemma_runs_push(runs: Seq<RunV>, r: RunV)
    ensures
        runs_text(runs.push(r)) == runs_text(runs) + run_text(r),
{
    assert(runs.push(r).drop_last() =~= runs);
    let t = ooxml::spec_runs_to_inline(runs);
    match ooxml::run_span(r) {
        Some(s) => {
            assert(t.push(s).drop_last() =~= t);
        },
        None => {
            assert(runs_text(runs) + seq![] =~= runs_text(runs));
        },
    }
}

proof fn lemma_runs_concat(a: Seq<RunV>, b: Seq<RunV>)
    ensures
        runs_text(a + b) == runs_text(a) + runs_text(b),
    decreases b.len(),
{
    if b.len() == 0 {
        assert(a + b =~= a);
        assert(runs_text(a) + runs_text(b) =~= runs_text(a));
    } else {
        lemma_runs_concat(a, b.drop_last());
        assert(a + b =~= (a + b.drop_last()).push(b.last()));
        assert(b =~= b.drop_last().push(b.last()));
        lemma_runs_push(a + b.drop_last(), b.last());
        lemma_runs_push(b.drop_last(), b.last());
    }
}

/// A run without the mark shows its text, whatever it looks like.
proof fn lemma_unmarked_run(r: RunV)
    requires
        is_unmarked(r.text),
    ensures
        run_text(r) == r.text,
        ooxml::run_span(r) matches Some(s) ==> !(s is Link),
{
    reveal_strlit("\u{1}");
    if chars::starts_with(r.text, "\u{1}"@) {
        assert(r.text.take(1)[0] == '\u{1}');
        assert(r.text[0] == '\u{1}');
        assert(r.text.contains('\u{1}'));
    }
    fidelity::lemma_plain_text(r.text);
    if r.text.len() == 0 {
        assert(r.text =~= seq![]);
    }
}

/// A link that was put together comes apart again.
proof fn lemma_sentinel(target: Seq<char>, label: Seq<char>)
    requires
        is_unmarked(target),
    ensures
        ooxml::spec_split_link(ooxml::sentinel(target, label)) == Some((target, label)),
{
    reveal_strlit("\u{1}");
    let m = "\u{1}"@;
    assert(m =~= seq!['\u{1}']);
    let s = ooxml::sentinel(target, label);
    assert(s.take(1) =~= m);
    let rest = s.skip(1);
    assert(rest =~= target + m + label);
    let n = target.len() as int;
    chars::lemma_find_from(rest, m, 0);
    assert(rest.subrange(n, n + 1) =~= m);
    assert(chars::matches_at(rest, m, n));
    match chars::find(rest, m) {
        Some(k) => {
            if k < n {
                assert(rest.subrange(k, k + 1)[0] == rest[k]);
                assert(target[k] == '\u{1}');
            }
            assert(k == n);
            assert(rest.take(n) =~= target);
            assert(rest.skip(n + 1) =~= label);
        },
        None => {},
    }
}

proof fn lemma_link_start(runs: Seq<RunV>)
    ensures
        0 <= ooxml::link_start(runs) <= runs.len(),
        forall|i: int| ooxml::link_start(runs) <= i < runs.len() ==> (#[trigger] runs[i]).linked,
    decreases runs.len(),
{
    if runs.len() > 0 && runs.last().linked {
        lemma_link_start(runs.drop_last());
        assert forall|i: int| ooxml::link_start(runs) <= i < runs.len() implies (
        #[trigger] runs[i]).linked by {
            if i < runs.len() - 1 {
                assert(runs[i] == runs.drop_last()[i]);
            }
        }
    }
}

/// Linked runs hold no mark.
spec fn links_are_unmarked(runs: Seq<RunV>) -> bool {
    forall|i: int| 0 <= i < runs.len() && (#[trigger] runs[i]).linked ==> is_unmarked(runs[i].text)
}

proof fn lemma_linked_text(runs: Seq<RunV>)
    requires
        links_are_unmarked(runs),
        forall|i: int| 0 <= i < runs.len() ==> (#[trigger] runs[i]).linked,
    ensures
        runs_text(runs) == ooxml::concat_runs(runs),
    decreases runs.len(),
{
    if runs.len() > 0 {
        let before = runs.drop_last();
        assert forall|i: int| 0 <= i < before.len() implies (#[trigger] before[i]).linked
            && is_unmarked(before[i].text) by {
            assert(before[i] == runs[i]);
        }
        lemma_linked_text(before);
        assert(runs[runs.len() - 1].linked);
        lemma_unmarked_run(runs.last());
        lemma_runs_push(before, runs.last());
        assert(before.push(runs.last()) =~= runs);
    }
}

proof fn lemma_lookup(rels: Seq<(Seq<char>, Seq<char>)>, id: Seq<char>)
    ensures
        ir::lookup(rels, id) matches Some(t) ==> exists|i: int|
            0 <= i < rels.len() && (#[trigger] rels[i]).1 == t && rels[i].0 == id,
    decreases rels.len(),
{
    if rels.len() > 0 {
        if rels[0].0 != id {
            lemma_lookup(rels.skip(1), id);
            if let Some(t) = ir::lookup(rels.skip(1), id) {
                let i = choose|i: int|
                    0 <= i < rels.skip(1).len() && (#[trigger] rels.skip(1)[i]).1 == t
                        && rels.skip(1)[i].0 == id;
                assert(rels[i + 1] == rels.skip(1)[i]);
            }
        }
    }
}

/// A closed hyperlink becomes one link: its address is the target of its
/// relationship, its label is the text of its runs, and what stands before it
/// stays.
pub proof fn hyperlinks_become_links(
    w: WalkV,
    linked: Seq<RunV>,
    n: NodeV,
    rels: Seq<(Seq<char>, Seq<char>)>,
    id: Seq<char>,
    target: Seq<char>,
)
    requires
        linked.len() > 0,
        forall|i: int| 0 <= i < linked.len() ==> (#[trigger] linked[i]).linked,
        w.runs.len() > 0 ==> !w.runs.last().linked,
        n.attr("id"@) == Some(id),
        ir::lookup(rels, id) == Some(target),
        is_unmarked(target),
    ensures
        ({
            let r = ooxml::spec_close_hyperlink(WalkV { runs: w.runs + linked, ..w }, n, rels);
            let spans = ooxml::spec_runs_to_inline(r.runs);
            let before = ooxml::spec_runs_to_inline(w.runs);
            &&& r.blocks == w.blocks
            &&& spans.len() == before.len() + 1
            &&& spans.drop_last() == before
            &&& spans.last() matches SpanV::Link { text, href } && href == target && ir::plain(text)
                == ooxml::concat_runs(linked)
        }),
{
    let runs = w.runs + linked;
    lemma_link_start_at(w.runs, linked);
    assert(runs.take(w.runs.len() as int) =~= w.runs);
    assert(runs.skip(w.runs.len() as int) =~= linked);
    let label = ooxml::concat_runs(linked);
    let run = ooxml::plain_run(ooxml::sentinel(target, label));
    lemma_sentinel(target, label);
    fidelity::lemma_plain_text(label);
    assert(w.runs.push(run).drop_last() =~= w.runs);
    let before = ooxml::spec_runs_to_inline(w.runs);
    let link = SpanV::Link { text: seq![SpanV::Text(label)], href: target };
    assert(before.push(link).drop_last() =~= before);
}

proof fn lemma_link_start_at(a: Seq<RunV>, b: Seq<RunV>)
    requires
        forall|i: int| 0 <= i < b.len() ==> (#[trigger] b[i]).linked,
        a.len() > 0 ==> !a.last().linked,
    ensures
        ooxml::link_start(a + b) == a.len(),
    decreases b.len(),
{
    if b.len() == 0 {
        assert(a + b =~= a);
    } else {
        let c = b.drop_last();
        assert forall|i: int| 0 <= i < c.len() implies (#[trigger] c[i]).linked by {
            assert(c[i] == b[i]);
        }
        lemma_link_start_at(a, c);
        assert((a + b).drop_last() =~= a + c);
        assert((a + b).last() == b[b.len() - 1]);
    }
}

proof fn lemma_hyperlink_text(w: WalkV, n: NodeV, rels: Seq<(Seq<char>, Seq<char>)>)
    requires
        links_are_unmarked(w.runs),
        forall|i: int| 0 <= i < rels.len() ==> is_unmarked((#[trigger] rels[i]).1),
    ensures
        ({
            let r = ooxml::spec_close_hyperlink(w, n, rels);
            &&& runs_text(r.runs) == runs_text(w.runs)
            &&& links_are_unmarked(r.runs)
            &&& r.blocks == w.blocks
            &&& r.style == w.style
            &&& r.list_level == w.list_level
        }),
{
    if let Some(id) = n.attr("id"@) {
        if let Some(target) = ir::lookup(rels, id) {
            let start = ooxml::link_start(w.runs) as int;
            lemma_link_start(w.runs);
            lemma_lookup(rels, id);
            let i = choose|i: int|
                0 <= i < rels.len() && (#[trigger] rels[i]).1 == target && rels[i].0 == id;
            assert(is_unmarked(rels[i].1));
            if start < w.runs.len() {
                let a = w.runs.take(start);
                let b = w.runs.skip(start);
                assert(w.runs =~= a + b);
                assert forall|k: int| 0 <= k < b.len() implies (#[trigger] b[k]).linked
                    && is_unmarked(b[k].text) by {
                    assert(b[k] == w.runs[start + k]);
                }
                lemma_linked_text(b);
                lemma_runs_concat(a, b);
                let label = ooxml::concat_runs(b);
                let run = ooxml::plain_run(ooxml::sentinel(target, label));
                lemma_sentinel(target, label);
                fidelity::lemma_plain_text(label);
                lemma_runs_push(a, run);
                assert forall|k: int|
                    0 <= k < a.push(run).len() && (#[trigger] a.push(run)[k]).linked implies is_unmarked(
                    a.push(run)[k].text) by {
                    assert(a.push(run)[k] == w.runs[k]);
                }
            }
        }
    }
}

/// A list item adds one text, behind those there are.
proof fn lemma_add_item(blocks: Seq<BlockV>, ordered: bool, text: Seq<SpanV>)
    ensures
        fidelity::block_texts(ooxml::add_item(blocks, ordered, text)) == fidelity::block_texts(
            blocks,
        ).push(ir::plain(text)),
{
    let b = BlockV::Paragraph(text);
    let item = seq![b];
    let none = Seq::<BlockV>::empty();
    assert(none.push(b) =~= item);
    fidelity::lemma_block_texts_push(none, b);
    assert(fidelity::block_texts(none) =~= seq![]);
    assert(fidelity::texts_of(b) == seq![ir::plain(text)]);
    assert(fidelity::block_texts(item) =~= seq![ir::plain(text)]);
    let fresh = seq![item];
    assert(fresh.drop_last() =~= seq![]);
    assert(fidelity::item_texts(fresh.drop_last()) =~= seq![]);
    assert(fidelity::item_texts(fresh) =~= seq![ir::plain(text)]);
    let lone = BlockV::List { ordered, items: fresh };
    fidelity::lemma_block_texts_push(blocks, lone);
    assert(fidelity::block_texts(blocks) + seq![ir::plain(text)] =~= fidelity::block_texts(
        blocks,
    ).push(ir::plain(text)));
    if blocks.len() > 0 {
        if let BlockV::List { ordered: o, items } = blocks.last() {
            let more = items.push(item);
            assert(more.drop_last() =~= items);
            assert(fidelity::texts_of(blocks.last()) == fidelity::item_texts(items));
            assert(fidelity::block_texts(blocks) == fidelity::block_texts(blocks.drop_last())
                + fidelity::texts_of(blocks.last()));
            let whole = BlockV::List { ordered: o, items: more };
            fidelity::lemma_block_texts_push(blocks.drop_last(), whole);
            assert(fidelity::texts_of(whole) == fidelity::item_texts(items)
                + fidelity::block_texts(item));
            assert(fidelity::block_texts(blocks.drop_last()) + (fidelity::item_texts(items) + seq![
                ir::plain(text),
            ]) =~= fidelity::block_texts(blocks).push(ir::plain(text)));
        }
    }
}

/// What the walk has to do with the elements it has seen.
spec fn walked(nodes: Seq<NodeV>, w: WalkV) -> bool {
    &&& runs_text(w.runs) == open_text(nodes)
    &&& fidelity::block_texts(w.blocks) == paragraphs(nodes)
    &&& w.style == open_style(nodes)
    &&& links_are_unmarked(w.runs)
    &&& w.tables.len() == 0
}

pub(crate) proof fn lemma_names()
    ensures
        "t"@ != "tab"@,
        "t"@ != "br"@,
        "t"@ != "p"@,
        "t"@ != "pstyle"@,
        "t"@ != "ilvl"@,
        "t"@ != "numpr"@,
        "t"@ != "b"@,
        "t"@ != "i"@,
        "t"@ != "tbl"@,
        "tab"@ != "pstyle"@,
        "tab"@ != "ilvl"@,
        "tab"@ != "numpr"@,
        "tab"@ != "b"@,
        "tab"@ != "i"@,
        "tab"@ != "r"@,
        "tab"@ != "br"@,
        "tab"@ != "p"@,
        "tab"@ != "tbl"@,
        "br"@ != "pstyle"@,
        "br"@ != "ilvl"@,
        "br"@ != "numpr"@,
        "br"@ != "b"@,
        "br"@ != "i"@,
        "br"@ != "r"@,
        "br"@ != "p"@,
        "br"@ != "tbl"@,
        "p"@ != "pstyle"@,
        "p"@ != "ilvl"@,
        "p"@ != "numpr"@,
        "p"@ != "b"@,
        "p"@ != "i"@,
        "p"@ != "r"@,
        "p"@ != "hyperlink"@,
        "p"@ != "tbl"@,
        "pstyle"@ != "tbl"@,
        "hyperlink"@ != "tbl"@,
        "hyperlink"@ != "t"@,
        "hyperlink"@ != "tab"@,
        "hyperlink"@ != "br"@,
        "hyperlink"@ != "pstyle"@,
        "tc"@ != "t"@,
        "tc"@ != "tab"@,
        "tc"@ != "br"@,
        "tc"@ != "p"@,
        "tc"@ != "pstyle"@,
        "tc"@ != "ilvl"@,
        "tc"@ != "numpr"@,
        "tc"@ != "b"@,
        "tc"@ != "i"@,
        "tc"@ != "r"@,
        "tc"@ != "hyperlink"@,
        "tc"@ != "tr"@,
        "tr"@ != "t"@,
        "tr"@ != "tab"@,
        "tr"@ != "br"@,
        "tr"@ != "p"@,
        "tr"@ != "pstyle"@,
        "tr"@ != "ilvl"@,
        "tr"@ != "numpr"@,
        "tr"@ != "b"@,
        "tr"@ != "i"@,
        "tr"@ != "r"@,
        "tr"@ != "hyperlink"@,
        "tbl"@ != "ilvl"@,
        "tbl"@ != "numpr"@,
        "tbl"@ != "b"@,
        "tbl"@ != "i"@,
        "tbl"@ != "r"@,
        "tbl"@ != "tc"@,
        "tbl"@ != "tr"@,
{
    reveal_strlit("t");
    reveal_strlit("tab");
    reveal_strlit("br");
    reveal_strlit("p");
    reveal_strlit("pstyle");
    reveal_strlit("ilvl");
    reveal_strlit("numpr");
    reveal_strlit("b");
    reveal_strlit("i");
    reveal_strlit("r");
    reveal_strlit("hyperlink");
    reveal_strlit("tc");
    reveal_strlit("tr");
    reveal_strlit("tbl");
    assert("t"@.len() == 1 && "p"@.len() == 1 && "b"@.len() == 1 && "i"@.len() == 1 && "r"@.len()
        == 1);
    assert("tab"@.len() == 3 && "tbl"@.len() == 3 && "br"@.len() == 2 && "tc"@.len() == 2
        && "tr"@.len() == 2);
    assert("pstyle"@.len() == 6 && "ilvl"@.len() == 4 && "numpr"@.len() == 5 && "hyperlink"@.len()
        == 9);
    assert("t"@[0] == 't' && "p"@[0] == 'p' && "b"@[0] == 'b' && "i"@[0] == 'i' && "r"@[0] == 'r');
    assert("tab"@[1] == 'a' && "tbl"@[1] == 'b');
    assert("br"@[0] == 'b' && "tc"@[0] == 't' && "tr"@[0] == 't');
    assert("tc"@[1] == 'c' && "tr"@[1] == 'r');
}

/// An element that is named in no table stands in none.
proof fn lemma_not_a_table(n: NodeV)
    requires
        ooxml::count_name(n.path, "tbl"@) == 0,
    ensures
        n.name() != "tbl"@,
{
    if n.name() == "tbl"@ {
        if n.path.len() > 0 {
            assert(n.path.last() == "tbl"@);
        } else {
            reveal_strlit("tbl");
            assert("tbl"@.len() == 3);
        }
    }
}

#[verifier::rlimit(60)]
#[verifier::spinoff_prover]
proof fn lemma_step(
    nodes: Seq<NodeV>,
    w: WalkV,
    n: NodeV,
    rels: Seq<(Seq<char>, Seq<char>)>,
)
    requires
        walked(nodes, w),
        ooxml::count_name(n.path, "tbl"@) == 0,
        n.name() != "tc"@,
        n.name() != "tr"@,
        is_unmarked(n.own_text),
        forall|i: int| 0 <= i < rels.len() ==> is_unmarked((#[trigger] rels[i]).1),
    ensures
        walked(nodes.push(n), ooxml::walk_step(w, n, rels)),
{
    let more = nodes.push(n);
    assert(more.drop_last() =~= nodes);
    assert(more.last() == n);
    let name = n.name();
    let r = ooxml::walk_step(w, n, rels);
    lemma_names();
    lemma_not_a_table(n);
    assert(open_text(nodes) + seq![] =~= open_text(nodes));
    if name == "p"@ {
        let inline = ooxml::spec_runs_to_inline(w.runs);
        assert(r.runs =~= seq![]);
        assert(runs_text(r.runs) =~= seq![]);
        if !chars::is_blank(ir::plain(inline)) {
            lemma_add_item(w.blocks, false, inline);
            lemma_add_item(w.blocks, true, inline);
            let h = BlockV::Heading {
                level: match ooxml::spec_heading_level(w.style) {
                    Some(level) => level,
                    None => 0,
                },
                text: inline,
            };
            fidelity::lemma_block_texts_push(w.blocks, h);
            fidelity::lemma_block_texts_push(w.blocks, BlockV::Paragraph(inline));
            assert(fidelity::block_texts(w.blocks) + seq![ir::plain(inline)]
                =~= fidelity::block_texts(w.blocks).push(ir::plain(inline)));
        }
    } else if name == "t"@ {
        if n.own_text.len() == 0 {
            assert(n.own_text =~= seq![]);
        } else {
            let run = RunV {
                text: n.own_text,
                linked: n.under("hyperlink"@),
                bold: w.bold,
                italic: w.italic,
            };
            lemma_unmarked_run(run);
            lemma_runs_push(w.runs, run);
            assert(r.runs == w.runs.push(run));
            assert forall|k: int| 0 <= k < r.runs.len() && (#[trigger] r.runs[k]).linked implies is_unmarked(
                r.runs[k].text) by {
                if k < w.runs.len() {
                    assert(r.runs[k] == w.runs[k]);
                }
            }
        }
    } else if name == "tab"@ || name == "br"@ {
        reveal_strlit(" ");
        reveal_strlit("\n");
        let t = if name == "tab"@ {
            " "@
        } else {
            "\n"@
        };
        assert(" "@ =~= seq![' ']);
        assert("\n"@ =~= seq!['\n']);
        let run = ooxml::plain_run(t);
        lemma_unmarked_run(run);
        lemma_runs_push(w.runs, run);
        assert(r.runs == w.runs.push(run));
        assert forall|k: int| 0 <= k < r.runs.len() && (#[trigger] r.runs[k]).linked implies is_unmarked(
            r.runs[k].text) by {
            if k < w.runs.len() {
                assert(r.runs[k] == w.runs[k]);
            }
        }
    } else if name == "hyperlink"@ {
        lemma_hyperlink_text(w, n, rels);
    }
}

proof fn lemma_walk(nodes: Seq<NodeV>, rels: Seq<(Seq<char>, Seq<char>)>)
    requires
        is_running_text(nodes, rels),
        forall|i: int|
            0 <= i < nodes.len() ==> (#[trigger] nodes[i]).name() != "tc"@ && nodes[i].name()
                != "tr"@,
    ensures
        walked(nodes, ooxml::walk(nodes, rels)),
    decreases nodes.len(),
{
    if nodes.len() == 0 {
        let w = ooxml::start_walk();
        assert(runs_text(w.runs) =~= seq![]);
        assert(fidelity::block_texts(w.blocks) =~= seq![]);
    } else {
        let before = nodes.drop_last();
        let n = nodes[nodes.len() - 1];
        assert forall|i: int| 0 <= i < before.len() implies ooxml::count_name(
            (#[trigger] before[i]).path,
            "tbl"@,
        ) == 0 && is_unmarked(before[i].own_text) && before[i].name() != "tc"@ && before[i].name()
            != "tr"@ by {
            assert(before[i] == nodes[i]);
        }
        lemma_walk(before, rels);
        assert(ooxml::count_name(n.path, "tbl"@) == 0);
        lemma_step(before, ooxml::walk(before, rels), n, rels);
        assert(before.push(n) =~= nodes);
    }
}

/// Outside tables a document's blocks show its paragraphs' texts, each exactly
/// and in the order of the document: a tab is a space, a break a line feed, and
/// blank paragraphs are left out. Headings, list items and plain paragraphs,
/// links and emphasis are all read alike.
pub proof fn documents_keep_their_paragraphs(
    nodes: Seq<NodeV>,
    rels: Seq<(Seq<char>, Seq<char>)>,
)
    requires
        is_running_text(nodes, rels),
        forall|i: int|
            0 <= i < nodes.len() ==> (#[trigger] nodes[i]).name() != "tc"@ && nodes[i].name()
                != "tr"@,
    ensures
        fidelity::block_texts(ooxml::walk(nodes, rels).blocks) == paragraphs(nodes),
{
    lemma_walk(nodes, rels);
}

/// Every paragraph that ends says something and has the style of a list.
pub open spec fn only_items(nodes: Seq<NodeV>, ordered: bool) -> bool
    decreases nodes.len(),
{
    nodes.len() == 0 || (only_items(nodes.drop_last(), ordered) && (nodes.last().name() == "p"@
        ==> {
        &&& !chars::is_blank(open_text(nodes.drop_last()))
        &&& ooxml::spec_list_style(open_style(nodes.drop_last())) == Some(ordered)
        &&& ooxml::spec_heading_level(open_style(nodes.drop_last())) is None
    }))
}

/// The blocks are one list with an item for each text, in their order.
pub open spec fn is_list_of(bs: Seq<BlockV>, ordered: bool, texts: Seq<Seq<char>>) -> bool {
    if texts.len() == 0 {
        bs.len() == 0
    } else {
        &&& bs.len() == 1
        &&& bs[0] matches BlockV::List { ordered: o, items } && o == ordered && items.len()
            == texts.len() && forall|k: int|
            0 <= k < items.len() ==> {
                &&& (#[trigger] items[k]).len() == 1
                &&& items[k][0] matches BlockV::Paragraph(text) && ir::plain(text) == texts[k]
            }
    }
}

/// A body of list items becomes one list, numbered where their style is, whose
/// k-th item is the k-th paragraph.
#[verifier::rlimit(40)]
#[verifier::spinoff_prover]
pub proof fn items_become_one_list(
    nodes: Seq<NodeV>,
    rels: Seq<(Seq<char>, Seq<char>)>,
    ordered: bool,
)
    requires
        is_running_text(nodes, rels),
        forall|i: int|
            0 <= i < nodes.len() ==> (#[trigger] nodes[i]).name() != "tc"@ && nodes[i].name()
                != "tr"@,
        only_items(nodes, ordered),
    ensures
        is_list_of(ooxml::walk(nodes, rels).blocks, ordered, paragraphs(nodes)),
    decreases nodes.len(),
{
    if nodes.len() > 0 {
        let before = nodes.drop_last();
        let n = nodes[nodes.len() - 1];
        assert forall|i: int| 0 <= i < before.len() implies ooxml::count_name(
            (#[trigger] before[i]).path,
            "tbl"@,
        ) == 0 && is_unmarked(before[i].own_text) && before[i].name() != "tc"@ && before[i].name()
            != "tr"@ by {
            assert(before[i] == nodes[i]);
        }
        items_become_one_list(before, rels, ordered);
        lemma_walk(before, rels);
        let w = ooxml::walk(before, rels);
        let r = ooxml::walk_step(w, n, rels);
        assert(ooxml::count_name(n.path, "tbl"@) == 0);
        lemma_names();
        lemma_not_a_table(n);
        let old_texts = paragraphs(before);
        if n.name() == "p"@ {
            let inline = ooxml::spec_runs_to_inline(w.runs);
            let item = seq![BlockV::Paragraph(inline)];
            assert(r.blocks == ooxml::add_item(w.blocks, ordered, inline));
            let texts = old_texts.push(ir::plain(inline));
            assert(paragraphs(nodes) == texts);
            if old_texts.len() > 0 {
                let items = w.blocks[0]->items;
                let more = r.blocks[0]->items;
                assert(r.blocks.len() == 1);
                assert(more == items.push(item));
                assert forall|k: int| 0 <= k < more.len() implies {
                    &&& (#[trigger] more[k]).len() == 1
                    &&& more[k][0] matches BlockV::Paragraph(text) && ir::plain(text) == texts[k]
                } by {
                    if k < items.len() {
                        assert(more[k] == items[k]);
                        assert(texts[k] == old_texts[k]);
                    }
                }
            } else {
                assert(w.blocks =~= seq![]);
                let items = r.blocks[0]->items;
                assert(items =~= seq![item]);
            }
        } else {
            assert(r.blocks == w.blocks) by {
                if n.name() == "hyperlink"@ {
                    lemma_hyperlink_text(w, n, rels);
                }
            }
            assert(paragraphs(nodes) == old_texts);
        }
    }
}

/// Each run that says anything is one span with its text: strong where the run is
/// bold, else emphasised where it is italic, else plain.
pub proof fn runs_keep_their_look(runs: Seq<RunV>)
    requires
        forall|i: int|
            0 <= i < runs.len() ==> is_unmarked((#[trigger] runs[i]).text) && runs[i].text.len()
                > 0,
    ensures
        ({
            let spans = ooxml::spec_runs_to_inline(runs);
            &&& spans.len() == runs.len()
            &&& forall|i: int|
                0 <= i < runs.len() ==> {
                    &&& ir::plain_span(#[trigger] spans[i]) == runs[i].text
                    &&& spans[i] is Strong == runs[i].bold
                    &&& spans[i] is Emphasis == (runs[i].italic && !runs[i].bold)
                    &&& spans[i] is Text == (!runs[i].italic && !runs[i].bold)
                }
        }),
    decreases runs.len(),
{
    if runs.len() > 0 {
        let before = runs.drop_last();
        assert forall|i: int| 0 <= i < before.len() implies is_unmarked(
            (#[trigger] before[i]).text,
        ) && before[i].text.len() > 0 by {
            assert(before[i] == runs[i]);
        }
        runs_keep_their_look(before);
        let r = runs[runs.len() - 1];
        assert(is_unmarked(r.text) && r.text.len() > 0);
        lemma_unmarked_run(r);
        let old_spans = ooxml::spec_runs_to_inline(before);
        let spans = ooxml::spec_runs_to_inline(runs);
        assert forall|i: int| 0 <= i < runs.len() implies {
            &&& ir::plain_span(#[trigger] spans[i]) == runs[i].text
            &&& spans[i] is Strong == runs[i].bold
            &&& spans[i] is Emphasis == (runs[i].italic && !runs[i].bold)
            &&& spans[i] is Text == (!runs[i].italic && !runs[i].bold)
        } by {
            if i < before.len() {
                assert(spans[i] == old_spans[i]);
                assert(before[i] == runs[i]);
            }
        }
    }
}

} // verus!

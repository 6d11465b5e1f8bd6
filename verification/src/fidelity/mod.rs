//! What conversion and rendering keep of their inputs: which text comes out, in
//! which order, and where.

use vstd::prelude::*;
use crate::chars;
use crate::ir;
use crate::ir::{BlockV, SpanV, TableV};

pub mod attempts;
pub mod budgets;
pub mod details;
pub mod edges;
pub mod failures;
pub mod files;
pub mod growth;
pub mod inline;
pub mod inputs;
pub mod markup;
pub mod office;
pub mod outcomes;
pub mod page;
pub mod pdf;
pub mod properties;
pub mod prose;
pub mod reports;
pub mod styles;
pub mod tables;
pub mod takers;
pub mod tidy;
pub mod values;
pub mod web;
pub mod word;

verus! {

/// What is written in `s`, white space and the character `but` left out.
pub open spec fn strokes(s: Seq<char>, but: char) -> Seq<char>
    decreases s.len(),
{
    if s.len() == 0 {
        seq![]
    } else if chars::is_space(s.last()) || s.last() == but {
        strokes(s.drop_last(), but)
    } else {
        strokes(s.drop_last(), but).push(s.last())
    }
}

/// What is written in the texts, one after the other.
pub open spec fn all_strokes(texts: Seq<Seq<char>>, but: char) -> Seq<char>
    decreases texts.len(),
{
    if texts.len() == 0 {
        seq![]
    } else {
        all_strokes(texts.drop_last(), but) + strokes(texts.last(), but)
    }
}

/// The words of the texts, one after the other.
pub open spec fn all_words(texts: Seq<Seq<char>>) -> Seq<Seq<char>>
    decreases texts.len(),
{
    if texts.len() == 0 {
        seq![]
    } else {
        all_words(texts.drop_last()) + chars::words(texts.last())
    }
}

/// The text of a row's cells.
pub open spec fn row_texts(row: Seq<Seq<SpanV>>) -> Seq<Seq<char>> {
    Seq::new(row.len(), |i: int| ir::plain(row[i]))
}

/// The text of the rows' cells, row by row.
pub open spec fn rows_texts(rows: Seq<Seq<Seq<SpanV>>>) -> Seq<Seq<char>>
    decreases rows.len(),
{
    if rows.len() == 0 {
        seq![]
    } else {
        rows_texts(rows.drop_last()) + row_texts(rows.last())
    }
}

/// The text of a table's cells, its header's first.
pub open spec fn table_texts(t: TableV) -> Seq<Seq<char>> {
    (match t.header {
        Some(h) => row_texts(h),
        None => seq![],
    }) + rows_texts(t.rows)
}

/// The texts that blocks show, in the order in which they are read.
pub open spec fn block_texts(bs: Seq<BlockV>) -> Seq<Seq<char>>
    decreases bs, 0int,
{
    if bs.len() == 0 {
        seq![]
    } else {
        block_texts(bs.drop_last()) + texts_of(bs.last())
    }
}

pub open spec fn item_texts(items: Seq<Seq<BlockV>>) -> Seq<Seq<char>>
    decreases items, 0int,
{
    if items.len() == 0 {
        seq![]
    } else {
        item_texts(items.drop_last()) + block_texts(items.last())
    }
}

/// The texts that one block shows.
pub open spec fn texts_of(b: BlockV) -> Seq<Seq<char>>
    decreases b, 0int,
{
    match b {
        BlockV::Heading { text, .. } => seq![ir::plain(text)],
        BlockV::Paragraph(text) => seq![ir::plain(text)],
        BlockV::List { items, .. } => item_texts(items),
        BlockV::Table(t) => table_texts(t),
        BlockV::Code { text, .. } => seq![text],
        BlockV::Quote(inner) => block_texts(inner),
        BlockV::Raw { markdown } => seq![markdown],
        BlockV::RawHtml { html } => seq![html],
        BlockV::Embedded { name, doc } => seq![name] + block_texts(doc.blocks),
        BlockV::Image(_) => seq![],
        BlockV::Rule => seq![],
    }
}

/// The texts of the headings, in order.
pub open spec fn titles(bs: Seq<BlockV>) -> Seq<Seq<char>>
    decreases bs.len(),
{
    if bs.len() == 0 {
        seq![]
    } else {
        match bs.last() {
            BlockV::Heading { text, .. } => titles(bs.drop_last()).push(ir::plain(text)),
            _ => titles(bs.drop_last()),
        }
    }
}

pub proof fn lemma_strokes_concat(a: Seq<char>, b: Seq<char>, but: char)
    ensures
        strokes(a + b, but) == strokes(a, but) + strokes(b, but),
    decreases b.len(),
{
    if b.len() == 0 {
        assert(a + b =~= a);
    } else {
        assert((a + b).drop_last() =~= a + b.drop_last());
        lemma_strokes_concat(a, b.drop_last(), but);
    }
}

pub proof fn lemma_strokes_one(c: char, but: char)
    ensures
        chars::is_space(c) || c == but ==> strokes(seq![c], but) == Seq::<char>::empty(),
        !chars::is_space(c) && c != but ==> strokes(seq![c], but) == seq![c],
{
    assert(seq![c].drop_last() =~= seq![]);
    assert(strokes(seq![c].drop_last(), but) =~= seq![]);
}

/// Text without white space and without `but` is all strokes.
pub proof fn lemma_strokes_all(s: Seq<char>, but: char)
    requires
        forall|i: int| 0 <= i < s.len() ==> !chars::is_space(#[trigger] s[i]) && s[i] != but,
    ensures
        strokes(s, but) == s,
    decreases s.len(),
{
    if s.len() > 0 {
        let t = s.drop_last();
        assert forall|i: int| 0 <= i < t.len() implies !chars::is_space(#[trigger] t[i]) && t[i]
            != but by {
            assert(t[i] == s[i]);
        }
        lemma_strokes_all(t, but);
        assert(s[s.len() - 1] == s.last());
        assert(t.push(s.last()) =~= s);
    }
}

pub proof fn lemma_all_strokes_concat(a: Seq<Seq<char>>, b: Seq<Seq<char>>, but: char)
    ensures
        all_strokes(a + b, but) == all_strokes(a, but) + all_strokes(b, but),
    decreases b.len(),
{
    if b.len() == 0 {
        assert(a + b =~= a);
    } else {
        assert((a + b).drop_last() =~= a + b.drop_last());
        lemma_all_strokes_concat(a, b.drop_last(), but);
    }
}

pub proof fn lemma_all_strokes_one(s: Seq<char>, but: char)
    ensures
        all_strokes(seq![s], but) == strokes(s, but),
{
    assert(seq![s].drop_last() =~= seq![]);
    assert(all_strokes(seq![s].drop_last(), but) =~= seq![]);
}

pub proof fn lemma_all_words_concat(a: Seq<Seq<char>>, b: Seq<Seq<char>>)
    ensures
        all_words(a + b) == all_words(a) + all_words(b),
    decreases b.len(),
{
    if b.len() == 0 {
        assert(a + b =~= a);
    } else {
        assert((a + b).drop_last() =~= a + b.drop_last());
        lemma_all_words_concat(a, b.drop_last());
    }
}

pub proof fn lemma_all_words_one(s: Seq<char>)
    ensures
        all_words(seq![s]) == chars::words(s),
{
    assert(seq![s].drop_last() =~= seq![]);
    assert(all_words(seq![s].drop_last()) =~= seq![]);
}

/// Trimming takes no stroke away.
pub proof fn lemma_strokes_trim(s: Seq<char>, but: char)
    ensures
        strokes(chars::trim(s), but) == strokes(s, but),
{
    lemma_strokes_trim_start(s, but);
    lemma_strokes_trim_end(chars::trim_start(s), but);
}

proof fn lemma_strokes_trim_start(s: Seq<char>, but: char)
    ensures
        strokes(chars::trim_start(s), but) == strokes(s, but),
    decreases s.len(),
{
    if s.len() > 0 && chars::is_space(s[0]) {
        lemma_strokes_trim_start(s.skip(1), but);
        lemma_strokes_concat(seq![s[0]], s.skip(1), but);
        lemma_strokes_one(s[0], but);
        assert(seq![s[0]] + s.skip(1) =~= s);
    }
}

pub proof fn lemma_strokes_trim_end(s: Seq<char>, but: char)
    ensures
        strokes(chars::trim_end(s), but) == strokes(s, but),
    decreases s.len(),
{
    if s.len() > 0 && chars::is_space(s.last()) {
        lemma_strokes_trim_end(s.drop_last(), but);
    }
}

/// A blank text has no strokes.
pub proof fn lemma_strokes_blank(s: Seq<char>, but: char)
    requires
        chars::is_blank(s),
    ensures
        strokes(s, but) == Seq::<char>::empty(),
{
    lemma_strokes_trim(s, but);
    assert(chars::trim(s) =~= seq![]);
}

/// Joining parts with blank text between them adds no stroke.
pub proof fn lemma_strokes_join(parts: Seq<Seq<char>>, sep: Seq<char>, but: char)
    requires
        strokes(sep, but) == Seq::<char>::empty(),
    ensures
        strokes(chars::join(parts, sep), but) == all_strokes(parts, but),
    decreases parts.len(),
{
    if parts.len() == 1 {
        assert(parts =~= seq![parts[0]]);
        lemma_all_strokes_one(parts[0], but);
    } else if parts.len() > 1 {
        lemma_strokes_join(parts.drop_last(), sep, but);
        let h = chars::join(parts.drop_last(), sep);
        lemma_strokes_concat(h, sep, but);
        lemma_strokes_concat(h + sep, parts.last(), but);
    }
}

/// The words of a text hold its strokes.
pub proof fn lemma_strokes_words(s: Seq<char>, but: char)
    ensures
        all_strokes(chars::words(s), but) == strokes(s, but),
    decreases s.len(),
{
    if s.len() > 0 {
        if chars::is_space(s[0]) {
            lemma_strokes_words(s.skip(1), but);
            lemma_strokes_concat(seq![s[0]], s.skip(1), but);
            lemma_strokes_one(s[0], but);
            assert(seq![s[0]] + s.skip(1) =~= s);
        } else {
            let n = chars::word_len(s);
            lemma_word_len_bounds(s);
            lemma_strokes_words(s.skip(n), but);
            lemma_all_strokes_concat(seq![s.take(n)], chars::words(s.skip(n)), but);
            lemma_all_strokes_one(s.take(n), but);
            lemma_strokes_concat(s.take(n), s.skip(n), but);
            assert(s.take(n) + s.skip(n) =~= s);
        }
    }
}

proof fn lemma_word_len_bounds(s: Seq<char>)
    ensures
        0 <= chars::word_len(s) <= s.len(),
        s.len() > 0 && !chars::is_space(s[0]) ==> chars::word_len(s) > 0,
        chars::word_len(s) < s.len() ==> chars::is_space(s[chars::word_len(s)]),
    decreases s.len(),
{
    if s.len() > 0 && !chars::is_space(s[0]) {
        lemma_word_len_bounds(s.skip(1));
    }
}

/// Collapsing white space keeps the strokes.
pub proof fn lemma_strokes_squeeze(s: Seq<char>, but: char)
    ensures
        strokes(crate::converters::spec_squeeze(s), but) == strokes(s, but),
{
    reveal_strlit(" ");
    assert(" "@ =~= seq![' ']);
    lemma_strokes_one(' ', but);
    lemma_strokes_join(chars::words(s), " "@, but);
    lemma_strokes_words(s, but);
}

/// The lines of a text hold its strokes.
pub proof fn lemma_strokes_lines(s: Seq<char>, but: char)
    ensures
        all_strokes(chars::lines(s), but) == strokes(s, but),
    decreases s.len(),
{
    if s.len() > 0 {
        let n = chars::line_len(s);
        chars::lemma_line_len(s);
        if n < s.len() {
            let head = s.take(n);
            let rest = s.skip(n + 1);
            lemma_strokes_lines(rest, but);
            lemma_all_strokes_concat(seq![chars::strip_cr(head)], chars::lines(rest), but);
            lemma_all_strokes_one(chars::strip_cr(head), but);
            lemma_strokes_concat(head, seq!['\n'], but);
            lemma_strokes_concat(head + seq!['\n'], rest, but);
            lemma_strokes_one('\n', but);
            assert(head + seq!['\n'] + rest =~= s);
        } else {
            lemma_all_strokes_one(s, but);
        }
    }
}

/// Words on either side of white space stay apart.
pub proof fn lemma_words_apart(a: Seq<char>, c: char, b: Seq<char>)
    requires
        chars::is_space(c),
    ensures
        chars::words(a + seq![c] + b) == chars::words(a) + chars::words(b),
    decreases a.len(),
{
    let s = a + seq![c] + b;
    if a.len() == 0 {
        assert(s[0] == c);
        assert(s.skip(1) =~= b);
        assert(chars::words(a) =~= seq![]);
    } else if chars::is_space(a[0]) {
        assert(s[0] == a[0]);
        assert(s.skip(1) =~= a.skip(1) + seq![c] + b);
        lemma_words_apart(a.skip(1), c, b);
    } else {
        assert(s[0] == a[0]);
        let n = chars::word_len(a);
        lemma_word_len_bounds(a);
        lemma_word_len_prefix(a, c, b);
        assert(s.take(n) =~= a.take(n));
        assert(s.skip(n) =~= a.skip(n) + seq![c] + b);
        lemma_words_apart(a.skip(n), c, b);
    }
}

proof fn lemma_word_len_prefix(a: Seq<char>, c: char, b: Seq<char>)
    requires
        chars::is_space(c),
    ensures
        chars::word_len(a + seq![c] + b) == chars::word_len(a),
    decreases a.len(),
{
    let s = a + seq![c] + b;
    if a.len() == 0 {
        assert(s[0] == c);
    } else {
        assert(s[0] == a[0]);
        if !chars::is_space(a[0]) {
            assert(s.skip(1) =~= a.skip(1) + seq![c] + b);
            lemma_word_len_prefix(a.skip(1), c, b);
        }
    }
}

pub proof fn lemma_words_trim(s: Seq<char>)
    ensures
        chars::words(chars::trim(s)) == chars::words(s),
{
    lemma_words_trim_start(s);
    lemma_words_trim_end(chars::trim_start(s));
}

proof fn lemma_words_trim_start(s: Seq<char>)
    ensures
        chars::words(chars::trim_start(s)) == chars::words(s),
    decreases s.len(),
{
    if s.len() > 0 && chars::is_space(s[0]) {
        lemma_words_trim_start(s.skip(1));
    }
}

proof fn lemma_words_trim_end(s: Seq<char>)
    ensures
        chars::words(chars::trim_end(s)) == chars::words(s),
    decreases s.len(),
{
    if s.len() > 0 && chars::is_space(s.last()) {
        lemma_words_trim_end(s.drop_last());
        lemma_words_apart(s.drop_last(), s.last(), seq![]);
        assert(s.drop_last() + seq![s.last()] + Seq::<char>::empty() =~= s);
        assert(chars::words(Seq::<char>::empty()) =~= seq![]);
    }
}

/// The lines of a text hold its words.
pub proof fn lemma_words_lines(s: Seq<char>)
    ensures
        all_words(chars::lines(s)) == chars::words(s),
    decreases s.len(),
{
    if s.len() > 0 {
        let n = chars::line_len(s);
        chars::lemma_line_len(s);
        if n < s.len() {
            let head = s.take(n);
            let rest = s.skip(n + 1);
            lemma_words_lines(rest);
            lemma_all_words_concat(seq![chars::strip_cr(head)], chars::lines(rest));
            lemma_all_words_one(chars::strip_cr(head));
            lemma_words_apart(head, '\n', rest);
            assert(head + seq!['\n'] + rest =~= s);
            if head.len() > 0 && head.last() == '\r' {
                lemma_words_apart(head.drop_last(), '\r', seq![]);
                assert(head.drop_last() + seq!['\r'] + Seq::<char>::empty() =~= head);
                assert(chars::words(Seq::<char>::empty()) =~= seq![]);
            }
        } else {
            lemma_all_words_one(s);
        }
    }
}

/// The words of joined parts, where white space joins them.
pub proof fn lemma_words_join(parts: Seq<Seq<char>>, c: char)
    requires
        chars::is_space(c),
    ensures
        chars::words(chars::join(parts, seq![c])) == all_words(parts),
    decreases parts.len(),
{
    if parts.len() == 1 {
        assert(parts =~= seq![parts[0]]);
        lemma_all_words_one(parts[0]);
    } else if parts.len() > 1 {
        lemma_words_join(parts.drop_last(), c);
        lemma_words_apart(chars::join(parts.drop_last(), seq![c]), c, parts.last());
    }
}

pub proof fn lemma_block_texts_push(bs: Seq<BlockV>, b: BlockV)
    ensures
        block_texts(bs.push(b)) == block_texts(bs) + texts_of(b),
{
    assert(bs.push(b).drop_last() =~= bs);
}

pub proof fn lemma_block_texts_concat(a: Seq<BlockV>, b: Seq<BlockV>)
    ensures
        block_texts(a + b) == block_texts(a) + block_texts(b),
    decreases b.len(),
{
    if b.len() == 0 {
        assert(a + b =~= a);
    } else {
        assert((a + b).drop_last() =~= a + b.drop_last());
        lemma_block_texts_concat(a, b.drop_last());
    }
}

/// The texts say the same words, one by one.
pub open spec fn same_words(a: Seq<Seq<char>>, b: Seq<Seq<char>>) -> bool {
    a.len() == b.len() && forall|k: int|
        0 <= k < a.len() ==> chars::words(#[trigger] a[k]) == chars::words(b[k])
}

pub proof fn lemma_same_words_push(
    a: Seq<Seq<char>>,
    b: Seq<Seq<char>>,
    x: Seq<char>,
    y: Seq<char>,
)
    requires
        same_words(a, b),
        chars::words(x) == chars::words(y),
    ensures
        same_words(a.push(x), b.push(y)),
{
    assert forall|k: int| 0 <= k < a.len() + 1 implies chars::words(#[trigger] a.push(x)[k])
        == chars::words(b.push(y)[k]) by {
        if k < a.len() {
            assert(a.push(x)[k] == a[k]);
        }
    }
}

/// White space is all there is exactly where collapsing it leaves nothing.
pub proof fn lemma_squeeze_blank(s: Seq<char>)
    ensures
        (crate::converters::spec_squeeze(s).len() == 0) == chars::is_blank(s),
        (chars::words(s).len() == 0) == chars::is_blank(s),
{
    let q = crate::converters::spec_squeeze(s);
    lemma_strokes_squeeze(s, ' ');
    lemma_strokes_words(s, ' ');
    lemma_words_trim(s);
    lemma_strokes_trim(s, ' ');
    let t = chars::trim(s);
    if t.len() == 0 {
        assert(t =~= seq![]);
        assert(chars::words(t) =~= seq![]);
    } else {
        crate::guarantees::lemma_trim_end(chars::trim_start(s));
        assert(strokes(t, ' ').len() > 0);
        if q.len() == 0 {
            assert(q =~= seq![]);
        }
        if chars::words(s).len() == 0 {
            assert(all_strokes(chars::words(s), ' ') =~= seq![]);
        }
    }
}

/// White space in front of a text holds no word.
pub proof fn lemma_words_behind_space(p: Seq<char>, b: Seq<char>)
    requires
        forall|i: int| 0 <= i < p.len() ==> chars::is_space(#[trigger] p[i]),
    ensures
        chars::words(p + b) == chars::words(b),
    decreases p.len(),
{
    if p.len() == 0 {
        assert(p + b =~= b);
    } else {
        let q = p.skip(1);
        assert forall|i: int| 0 <= i < q.len() implies chars::is_space(#[trigger] q[i]) by {
            assert(q[i] == p[i + 1]);
        }
        lemma_words_behind_space(q, b);
        assert(chars::is_space(p[0]));
        assert((p + b)[0] == p[0]);
        assert((p + b).skip(1) =~= q + b);
    }
}

/// Splitting a text at white space parts no word.
pub proof fn lemma_words_split(s: Seq<char>, p: Seq<char>)
    requires
        p.len() > 0,
        forall|i: int| 0 <= i < p.len() ==> chars::is_space(#[trigger] p[i]),
    ensures
        all_words(chars::split(s, p)) == chars::words(s),
    decreases s.len(),
{
    chars::lemma_find_from(s, p, 0);
    match chars::find(s, p) {
        Some(i) => {
            let head = s.take(i);
            let rest = s.skip(i + p.len());
            lemma_words_split(rest, p);
            lemma_all_words_concat(seq![head], chars::split(rest, p));
            lemma_all_words_one(head);
            let q = p.skip(1);
            assert forall|k: int| 0 <= k < q.len() implies chars::is_space(#[trigger] q[k]) by {
                assert(q[k] == p[k + 1]);
            }
            assert(chars::is_space(p[0]));
            lemma_words_apart(head, p[0], q + rest);
            lemma_words_behind_space(q, rest);
            assert(s.subrange(i, i + p.len()) == p);
            assert(s =~= head + seq![p[0]] + (q + rest)) by {
                assert forall|k: int| 0 <= k < s.len() implies s[k] == (head + seq![p[0]] + (q
                    + rest))[k] by {
                    if i <= k < i + p.len() {
                        assert(s.subrange(i, i + p.len())[k - i] == s[k]);
                    }
                }
            }
        },
        None => {
            lemma_all_words_one(s);
        },
    }
}

pub proof fn lemma_plain_push(s: Seq<SpanV>, x: SpanV)
    ensures
        ir::plain(s.push(x)) == ir::plain(s) + ir::plain_span(x),
        x matches SpanV::Text(t) ==> ir::plain_span(x) == t,
{
    assert(s.push(x).drop_last() =~= s);
}

/// The text of one text span.
pub proof fn lemma_plain_text(t: Seq<char>)
    ensures
        ir::plain(seq![SpanV::Text(t)]) == t,
{
    let s = seq![SpanV::Text(t)];
    assert(s.drop_last() =~= seq![]);
    assert(ir::plain(s.drop_last()) =~= seq![]);
    assert(ir::plain_span(s.last()) == t);
}

} // verus!

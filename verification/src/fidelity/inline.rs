//! What rendered inline content keeps.

use vstd::prelude::*;
use crate::chars;
use crate::guarantees;
use crate::ir;
use crate::ir::SpanV;
use crate::markdown;

verus! {

/// The character is white space, or one that Markdown uses as a mark.
pub open spec fn is_mark(c: char) -> bool {
    chars::is_space(c) || c == '\\' || c == '*' || c == '`' || c == '#' || c == '>' || c == '|' || c
        == '-' || c == '_'
}

/// What stands in `s`, white space and marks left out.
pub open spec fn letters(s: Seq<char>) -> Seq<char>
    decreases s.len(),
{
    if s.len() == 0 {
        seq![]
    } else if is_mark(s.last()) {
        letters(s.drop_last())
    } else {
        letters(s.drop_last()).push(s.last())
    }
}

pub proof fn lemma_letters_concat(a: Seq<char>, b: Seq<char>)
    ensures
        letters(a + b) == letters(a) + letters(b),
    decreases b.len(),
{
    if b.len() == 0 {
        assert(a + b =~= a);
    } else {
        assert((a + b).drop_last() =~= a + b.drop_last());
        lemma_letters_concat(a, b.drop_last());
    }
}

/// A text of marks has no letters.
pub proof fn lemma_letters_marks(s: Seq<char>)
    requires
        forall|i: int| 0 <= i < s.len() ==> is_mark(#[trigger] s[i]),
    ensures
        letters(s) == Seq::<char>::empty(),
    decreases s.len(),
{
    if s.len() > 0 {
        let t = s.drop_last();
        assert forall|i: int| 0 <= i < t.len() implies is_mark(#[trigger] t[i]) by {
            assert(t[i] == s[i]);
        }
        lemma_letters_marks(t);
        assert(is_mark(s[s.len() - 1]));
    }
}

pub proof fn lemma_letters_one(c: char)
    ensures
        is_mark(c) ==> letters(seq![c]) == Seq::<char>::empty(),
        !is_mark(c) ==> letters(seq![c]) == seq![c],
{
    assert(seq![c].drop_last() =~= seq![]);
    assert(letters(seq![c].drop_last()) =~= seq![]);
}

pub proof fn lemma_letters_trim_end(s: Seq<char>)
    ensures
        letters(chars::trim_end(s)) == letters(s),
    decreases s.len(),
{
    if s.len() > 0 && chars::is_space(s.last()) {
        lemma_letters_trim_end(s.drop_last());
    }
}

pub proof fn lemma_letters_trim(s: Seq<char>)
    ensures
        letters(chars::trim(s)) == letters(s),
{
    lemma_letters_trim_start(s);
    lemma_letters_trim_end(chars::trim_start(s));
}

proof fn lemma_letters_trim_start(s: Seq<char>)
    ensures
        letters(chars::trim_start(s)) == letters(s),
    decreases s.len(),
{
    if s.len() > 0 && chars::is_space(s[0]) {
        lemma_letters_trim_start(s.skip(1));
        lemma_letters_concat(seq![s[0]], s.skip(1));
        lemma_letters_one(s[0]);
        assert(seq![s[0]] + s.skip(1) =~= s);
    }
}

proof fn lemma_letters_escaped(s: Seq<char>, n: int, newline: Seq<char>)
    requires
        0 <= n <= s.len(),
        letters(newline) == Seq::<char>::empty() || forall|i: int|
            0 <= i < n ==> #[trigger] s[i] != '\n',
    ensures
        letters(markdown::escape_to(s, n, newline)) == letters(s.take(n)),
    decreases n,
{
    if n == 0 {
        assert(s.take(0) =~= seq![]);
    } else {
        lemma_letters_escaped(s, n - 1, newline);
        let c = s[n - 1];
        let e = markdown::escape_at(s, n - 1, newline);
        assert(s.take(n).drop_last() =~= s.take(n - 1));
        assert(s.take(n).last() == c);
        lemma_letters_concat(markdown::escape_to(s, n - 1, newline), e);
        lemma_letters_one(c);
        if markdown::needs_escape(s, n - 1) {
            lemma_letters_concat(seq!['\\'], seq![c]);
            lemma_letters_one('\\');
            assert(seq!['\\'] + seq![c] =~= e);
        } else if c == '\r' {
            assert(letters(e) =~= seq![]);
        } else if c == '\n' {
            assert(s[n - 1] == '\n');
        }
    }
}

/// Escaping keeps the letters.
pub proof fn lemma_letters_escape_text(s: Seq<char>)
    ensures
        letters(markdown::escape_text(s)) == letters(s),
{
    reveal_strlit(" ");
    assert(" "@ =~= seq![' ']);
    lemma_letters_one(' ');
    lemma_letters_escaped(s, s.len() as int, " "@);
    assert(s.take(s.len() as int) =~= s);
}

/// In a cell a line feed is written out, so the text has none.
pub proof fn lemma_letters_escape_cell(s: Seq<char>)
    requires
        !s.contains('\n'),
    ensures
        letters(markdown::escape_cell_text(s)) == letters(s),
{
    assert forall|i: int| 0 <= i < s.len() implies #[trigger] s[i] != '\n' by {
        assert(s.contains(s[i]));
    }
    lemma_letters_escaped(s, s.len() as int, "<br>"@);
    assert(s.take(s.len() as int) =~= s);
}

proof fn lemma_letters_wrapped(marker: Seq<char>, s: Seq<char>)
    requires
        forall|i: int| 0 <= i < marker.len() ==> is_mark(#[trigger] marker[i]),
    ensures
        letters(markdown::wrapped(marker, s)) == letters(s),
{
    lemma_letters_marks(marker);
    lemma_letters_trim(s);
    if chars::is_blank(s) {
        assert(chars::trim(s) =~= seq![]);
    } else {
        lemma_letters_concat(marker, chars::trim(s));
        lemma_letters_concat(marker + chars::trim(s), marker);
    }
}

proof fn lemma_letters_code(t: Seq<char>)
    ensures
        letters(markdown::code_span(t)) == letters(t),
{
    reveal_strlit(" ");
    let n = markdown::longest_backtick_run(t) + 1;
    let ticks = chars::repeat("`"@, n);
    guarantees::lemma_repeat_tick(n);
    lemma_letters_marks(ticks);
    lemma_letters_marks(" "@);
    lemma_letters_concat(ticks, t);
    lemma_letters_concat(ticks + t, ticks);
    lemma_letters_concat(ticks, " "@);
    lemma_letters_concat(ticks + " "@, t);
    lemma_letters_concat(ticks + " "@ + t, " "@);
    lemma_letters_concat(ticks + " "@ + t + " "@, ticks);
}

/// Inline content without links; in a cell also without line ends.
pub open spec fn is_linkless(i: Seq<SpanV>, cell: bool) -> bool
    decreases i,
{
    i.len() == 0 || (is_linkless(i.drop_last(), cell) && is_linkless_span(i.last(), cell))
}

pub open spec fn is_linkless_span(s: SpanV, cell: bool) -> bool
    decreases s,
{
    match s {
        SpanV::Text(t) => !cell || !t.contains('\n'),
        SpanV::Emphasis(i) => is_linkless(i, cell),
        SpanV::Strong(i) => is_linkless(i, cell),
        SpanV::Code(_) => !cell,
        SpanV::Link { .. } => false,
        SpanV::LineBreak => !cell,
    }
}

proof fn lemma_span_letters(s: SpanV, cell: bool)
    requires
        is_linkless_span(s, cell),
    ensures
        letters(markdown::span(s, cell)) == letters(ir::plain_span(s)),
    decreases s, 0int,
{
    match s {
        SpanV::Text(t) => {
            if cell {
                lemma_letters_escape_cell(t);
            } else {
                lemma_letters_escape_text(t);
            }
        },
        SpanV::Emphasis(i) => {
            reveal_strlit("*");
            inline_content_keeps_its_letters(i, cell);
            lemma_letters_wrapped("*"@, markdown::inline_with(i, cell));
        },
        SpanV::Strong(i) => {
            reveal_strlit("**");
            inline_content_keeps_its_letters(i, cell);
            lemma_letters_wrapped("**"@, markdown::inline_with(i, cell));
        },
        SpanV::Code(t) => lemma_letters_code(t),
        SpanV::LineBreak => {
            reveal_strlit("  \n");
            lemma_letters_marks("  \n"@);
            lemma_letters_marks(seq![' ']);
        },
        SpanV::Link { .. } => {},
    }
}

/// Nothing that inline content says is lost, added or moved: but for white space
/// and marks, what is written is its text, in its order.
pub proof fn inline_content_keeps_its_letters(i: Seq<SpanV>, cell: bool)
    requires
        is_linkless(i, cell),
    ensures
        letters(markdown::inline_with(i, cell)) == letters(ir::plain(i)),
    decreases i, 1int,
{
    if i.len() > 0 {
        inline_content_keeps_its_letters(i.drop_last(), cell);
        lemma_span_letters(i.last(), cell);
        lemma_letters_concat(
            markdown::inline_with(i.drop_last(), cell),
            markdown::span(i.last(), cell),
        );
        lemma_letters_concat(ir::plain(i.drop_last()), ir::plain_span(i.last()));
    }
}

/// Inline content is written span by span.
pub proof fn spans_follow_each_other(a: Seq<SpanV>, b: Seq<SpanV>, cell: bool)
    ensures
        markdown::inline_with(a + b, cell) == markdown::inline_with(a, cell)
            + markdown::inline_with(b, cell),
        ir::plain(a + b) == ir::plain(a) + ir::plain(b),
    decreases b.len(),
{
    if b.len() == 0 {
        assert(a + b =~= a);
        assert(markdown::inline_with(a, cell) + seq![] =~= markdown::inline_with(a, cell));
        assert(ir::plain(a) + seq![] =~= ir::plain(a));
    } else {
        assert((a + b).drop_last() =~= a + b.drop_last());
        spans_follow_each_other(a, b.drop_last(), cell);
        let x = markdown::span(b.last(), cell);
        assert(markdown::inline_with(a, cell) + markdown::inline_with(b.drop_last(), cell) + x
            =~= markdown::inline_with(a, cell) + (markdown::inline_with(b.drop_last(), cell) + x));
        let y = ir::plain_span(b.last());
        assert(ir::plain(a) + ir::plain(b.drop_last()) + y =~= ir::plain(a) + (ir::plain(
            b.drop_last(),
        ) + y));
    }
}

/// `s` is written between two copies of `marker` and nothing else.
pub open spec fn is_between(s: Seq<char>, marker: Seq<char>, inside: Seq<char>) -> bool {
    &&& s.len() == 2 * marker.len() + inside.len()
    &&& s.take(marker.len() as int) == marker
    &&& s.skip(s.len() - marker.len()) == marker
    &&& s.subrange(marker.len() as int, s.len() - marker.len()) == inside
}

proof fn lemma_between(marker: Seq<char>, inside: Seq<char>)
    ensures
        is_between(marker + inside + marker, marker, inside),
{
    let s = marker + inside + marker;
    assert(s.take(marker.len() as int) =~= marker);
    assert(s.skip(s.len() - marker.len()) =~= marker);
    assert(s.subrange(marker.len() as int, s.len() - marker.len()) =~= inside);
}

/// Emphasis stands between single stars, strong text between double ones; where it
/// says nothing, nothing is written.
pub proof fn emphasis_is_marked(i: Seq<SpanV>, cell: bool)
    ensures
        ({
            let inside = chars::trim(markdown::inline_with(i, cell));
            &&& inside.len() > 0 ==> is_between(
                markdown::span(SpanV::Emphasis(i), cell),
                seq!['*'],
                inside,
            )
            &&& inside.len() > 0 ==> is_between(
                markdown::span(SpanV::Strong(i), cell),
                seq!['*', '*'],
                inside,
            )
            &&& inside.len() == 0 ==> markdown::span(SpanV::Emphasis(i), cell).len() == 0
            &&& inside.len() == 0 ==> markdown::span(SpanV::Strong(i), cell).len() == 0
        }),
{
    reveal_strlit("*");
    reveal_strlit("**");
    assert("*"@ =~= seq!['*']);
    assert("**"@ =~= seq!['*', '*']);
    let inside = chars::trim(markdown::inline_with(i, cell));
    lemma_between(seq!['*'], inside);
    lemma_between(seq!['*', '*'], inside);
}

pub open spec fn backticks(n: nat) -> Seq<char> {
    Seq::new(n, |k: int| '`')
}

/// A code span is its text between two runs of as many backticks; a text that
/// starts or ends with a backtick stands between spaces.
pub proof fn code_stands_between_backticks(t: Seq<char>)
    ensures
        ({
            let inside = if t.len() > 0 && (t[0] == '`' || t.last() == '`') {
                seq![' '] + t + seq![' ']
            } else {
                t
            };
            exists|n: nat|
                n > 0 && is_between(
                    markdown::span(SpanV::Code(t), false),
                    #[trigger] backticks(n),
                    inside,
                )
        }),
{
    reveal_strlit(" ");
    assert(" "@ =~= seq![' ']);
    let n = markdown::longest_backtick_run(t) + 1;
    guarantees::lemma_repeat_tick(n);
    let ticks = backticks(n);
    assert(chars::repeat("`"@, n) =~= ticks);
    let inside = if t.len() > 0 && (t[0] == '`' || t.last() == '`') {
        seq![' '] + t + seq![' ']
    } else {
        t
    };
    lemma_between(ticks, inside);
    assert(markdown::code_span(t) =~= ticks + inside + ticks);
    assert(is_between(markdown::span(SpanV::Code(t), false), ticks, inside));
}

/// `s` ends with a parenthesis that holds `inside`, and no other opens after it.
pub open spec fn ends_with_address(s: Seq<char>, inside: Seq<char>) -> bool {
    let i = s.len() - inside.len() - 2;
    &&& i >= 0
    &&& s[i] == '('
    &&& s.last() == ')'
    &&& s.subrange(i + 1, s.len() - 1) == inside
    &&& forall|k: int| i < k < s.len() ==> #[trigger] s[k] != '('
}

/// The address needs no brackets round it.
pub open spec fn is_bare_address(t: Seq<char>) -> bool {
    !t.contains(' ') && !t.contains('(') && !t.contains(')')
}

/// A link outside a cell is its label in square brackets and, right behind them, its
/// address in parentheses. A label that says nothing is replaced by the address.
pub proof fn links_keep_label_and_address(text: Seq<SpanV>, href: Seq<char>)
    ensures
        ({
            let o = markdown::span(SpanV::Link { text, href }, false);
            let label = markdown::inline(text);
            let shown = if chars::is_blank(label) {
                markdown::escape_text(href)
            } else {
                label
            };
            let address = chars::trim(href);
            &&& is_bare_address(address) ==> ends_with_address(o, address)
            &&& is_bare_address(address) ==> o.take(o.len() - address.len() - 2) == seq!['[']
                + shown + seq![']']
            &&& !is_bare_address(address) && !address.contains('<') && !address.contains('>') ==> o
                == seq!['['] + shown + seq![']', '(', '<'] + address + seq!['>', ')']
        }),
{
    reveal_strlit("[");
    reveal_strlit("](");
    reveal_strlit(")");
    reveal_strlit("<");
    reveal_strlit(">");
    reveal_strlit("");
    let o = markdown::span(SpanV::Link { text, href }, false);
    let label = markdown::inline(text);
    let shown = if chars::is_blank(label) {
        markdown::escape_text(href)
    } else {
        label
    };
    let address = chars::trim(href);
    if is_bare_address(address) {
        assert(markdown::escape_url(href) == address);
        assert(o =~= seq!['['] + shown + seq![']', '('] + address + seq![')']);
        let i = o.len() - address.len() - 2;
        assert(o.subrange(i + 1, o.len() - 1) =~= address);
        assert forall|k: int| i < k < o.len() implies #[trigger] o[k] != '(' by {
            if k < o.len() - 1 {
                assert(o[k] == address[k - i - 1]);
                assert(address.contains(o[k]));
            }
        }
        assert(o.take(i) =~= seq!['['] + shown + seq![']']);
    } else if !address.contains('<') && !address.contains('>') {
        assert("<"@ =~= seq!['<']);
        assert(">"@ =~= seq!['>']);
        guarantees::lemma_replace_is_swapped(address, '<', ""@);
        guarantees::lemma_swapped_without(address, '<', ""@);
        guarantees::lemma_replace_is_swapped(address, '>', ""@);
        guarantees::lemma_swapped_without(address, '>', ""@);
        assert(o =~= seq!['['] + shown + seq![']', '(', '<'] + address + seq!['>', ')']);
    }
}

/// In a cell a link reads the same, where its address holds nothing that would end
/// the cell.
pub proof fn links_in_cells_keep_their_address(text: Seq<SpanV>, href: Seq<char>)
    requires
        is_bare_address(chars::trim(href)),
        forall|k: int|
            0 <= k < href.len() ==> #[trigger] href[k] != '|' && href[k] != '\n' && href[k] != '\r',
    ensures
        ends_with_address(
            markdown::span(SpanV::Link { text, href }, true),
            chars::trim(href),
        ),
{
    reveal_strlit("[");
    reveal_strlit("](");
    reveal_strlit(")");
    let address = chars::trim(href);
    let target = "]("@ + markdown::escape_url(href) + ")"@;
    assert(target =~= seq![']', '('] + address + seq![')']);
    guarantees::lemma_trim_parts(href);
    let (i, j) = choose|i: int, j: int|
        0 <= i <= j <= href.len() && chars::trim(href) == #[trigger] href.subrange(i, j);
    assert forall|k: int| 0 <= k < target.len() implies #[trigger] target[k] != '|' && target[k]
        != '\n' && target[k] != '\r' by {
        if 2 <= k < target.len() - 1 {
            assert(target[k] == href[i + k - 2]);
        }
    }
    lemma_in_cell_same(target);
    let o = markdown::span(SpanV::Link { text, href }, true);
    let n = o.len() - address.len() - 2;
    assert(o.subrange(n + 1, o.len() - 1) =~= address);
    assert forall|k: int| n < k < o.len() implies #[trigger] o[k] != '(' by {
        if k < o.len() - 1 {
            assert(o[k] == address[k - n - 1]);
            assert(address.contains(o[k]));
        }
    }
}

proof fn lemma_in_cell_same(s: Seq<char>)
    requires
        forall|k: int|
            0 <= k < s.len() ==> #[trigger] s[k] != '|' && s[k] != '\n' && s[k] != '\r',
    ensures
        markdown::in_cell(s) == s,
    decreases s.len(),
{
    if s.len() > 0 {
        let t = s.drop_last();
        assert forall|k: int| 0 <= k < t.len() implies #[trigger] t[k] != '|' && t[k] != '\n'
            && t[k] != '\r' by {
            assert(t[k] == s[k]);
        }
        lemma_in_cell_same(t);
        assert(s[s.len() - 1] == s.last());
        assert(t.push(s.last()) =~= s);
    }
}

} // verus!

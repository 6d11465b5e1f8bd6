//! What PDF pages keep.

use vstd::prelude::*;
use crate::chars;
use crate::converters;
use crate::converters::extract::ExtractedV;
use crate::converters::pdf;
use crate::converters::pdf::{PageV, PagesV};
use crate::cx::CxV;
use crate::fidelity;
use crate::ir::{BlockV, DocumentV, SpanV};
use crate::stream_info::StreamInfoV;

verus! {

proof fn lemma_rejoin_strokes(ls: Seq<Seq<char>>)
    ensures
        fidelity::strokes(pdf::rejoin_lines(ls), '-') == fidelity::all_strokes(ls, '-'),
    decreases ls.len(),
{
    if ls.len() > 0 {
        lemma_rejoin_strokes(ls.drop_last());
        let out = pdf::rejoin_lines(ls.drop_last());
        let t = chars::trim(ls.last());
        fidelity::lemma_strokes_trim(ls.last(), '-');
        if t.len() == 0 {
            assert(t =~= seq![]);
        } else if out.len() > 0 {
            if out.last() == '-' {
                fidelity::lemma_strokes_concat(out.drop_last(), t, '-');
            } else {
                fidelity::lemma_strokes_concat(out, seq![' '], '-');
                fidelity::lemma_strokes_one(' ', '-');
                fidelity::lemma_strokes_concat(out.push(' '), t, '-');
                assert(out.push(' ') =~= out + seq![' ']);
            }
        }
    }
}

/// The strokes of the texts that a page shows and of the lines that it holds
/// back.
spec fn page_strokes(p: PageV) -> Seq<char> {
    fidelity::all_strokes(fidelity::block_texts(p.blocks), '-') + fidelity::all_strokes(
        p.pending,
        '-',
    )
}

proof fn lemma_newline_is_blank(but: char)
    ensures
        fidelity::strokes("\n"@, but) == Seq::<char>::empty(),
{
    reveal_strlit("\n");
    assert("\n"@ =~= seq!['\n']);
    fidelity::lemma_strokes_one('\n', but);
}

proof fn lemma_pushed_strokes(bs: Seq<BlockV>, b: BlockV, t: Seq<char>)
    requires
        fidelity::texts_of(b) == seq![t],
    ensures
        fidelity::all_strokes(fidelity::block_texts(bs.push(b)), '-') == fidelity::all_strokes(
            fidelity::block_texts(bs),
            '-',
        ) + fidelity::strokes(t, '-'),
{
    fidelity::lemma_block_texts_push(bs, b);
    fidelity::lemma_all_strokes_concat(fidelity::block_texts(bs), seq![t], '-');
    fidelity::lemma_all_strokes_one(t, '-');
}

proof fn lemma_flushed_strokes(p: PageV)
    ensures
        page_strokes(p.flushed()) == page_strokes(p),
        p.flushed().pending.len() == 0,
{
    if p.pending.len() > 0 {
        let joined = chars::join(p.pending, "\n"@);
        let t = pdf::spec_rejoin(joined);
        lemma_newline_is_blank('-');
        fidelity::lemma_strokes_join(p.pending, "\n"@, '-');
        fidelity::lemma_strokes_lines(joined, '-');
        lemma_rejoin_strokes(chars::lines(joined));
        fidelity::lemma_strokes_squeeze(pdf::rejoin_lines(chars::lines(joined)), '-');
        assert(fidelity::strokes(t, '-') == fidelity::all_strokes(p.pending, '-'));
        if t.len() == 0 {
            assert(t =~= seq![]);
        } else {
            fidelity::lemma_plain_text(t);
            lemma_pushed_strokes(p.blocks, BlockV::Paragraph(seq![SpanV::Text(t)]), t);
        }
        assert(page_strokes(p.flushed()) =~= page_strokes(p));
    }
}

proof fn lemma_line_strokes(p: PageV, line: Seq<char>)
    ensures
        page_strokes(p.with_line(line)) == page_strokes(p) + fidelity::strokes(line, '-'),
{
    let t = chars::trim(line);
    lemma_flushed_strokes(p);
    fidelity::lemma_strokes_trim(line, '-');
    if t.len() == 0 {
        assert(t =~= seq![]);
        assert(page_strokes(p) + fidelity::strokes(line, '-') =~= page_strokes(p));
    } else {
        match pdf::spec_heading_shape(t) {
            Some(level) => {
                let h = converters::spec_squeeze(t);
                let b = BlockV::Heading { level, text: seq![SpanV::Text(h)] };
                fidelity::lemma_strokes_squeeze(t, '-');
                fidelity::lemma_plain_text(h);
                lemma_pushed_strokes(p.flushed().blocks, b, h);
                assert(p.flushed().pending =~= seq![]);
                assert(page_strokes(p.with_line(line)) =~= page_strokes(p) + fidelity::strokes(
                    line,
                    '-',
                ));
            },
            None => {
                assert(p.pending.push(line).drop_last() =~= p.pending);
                assert(page_strokes(p.with_line(line)) =~= page_strokes(p) + fidelity::strokes(
                    line,
                    '-',
                ));
            },
        }
    }
}

proof fn lemma_run_strokes(ls: Seq<Seq<char>>, fired: bool)
    ensures
        page_strokes(pdf::page_run(ls, fired)) == fidelity::all_strokes(ls, '-'),
    decreases ls.len(),
{
    if ls.len() == 0 {
        assert(page_strokes(pdf::page_run(ls, fired)) =~= seq![]);
    } else {
        lemma_run_strokes(ls.drop_last(), fired);
        lemma_line_strokes(pdf::page_run(ls.drop_last(), fired), ls.last());
    }
}

/// Nothing written on a page is lost, added or moved: the page's blocks show its
/// characters in its order, but for white space and hyphens.
pub proof fn pages_keep_their_text(page: Seq<char>, fired: bool)
    ensures
        fidelity::all_strokes(
            fidelity::block_texts(pdf::spec_page_blocks(page, fired).blocks),
            '-',
        ) == fidelity::strokes(page, '-'),
{
    let p = pdf::page_run(chars::lines(page), fired);
    lemma_run_strokes(chars::lines(page), fired);
    lemma_flushed_strokes(p);
    fidelity::lemma_strokes_lines(page, '-');
    assert(p.flushed().pending =~= seq![]);
    assert(page_strokes(p.flushed()) =~= fidelity::all_strokes(
        fidelity::block_texts(p.flushed().blocks),
        '-',
    ));
}

/// The last word that a line has a part in ends with a hyphen.
pub open spec fn breaks_a_word(line: Seq<char>) -> bool {
    chars::trim(line).len() > 0 && chars::trim(line).last() == '-'
}

proof fn lemma_rejoin_words(ls: Seq<Seq<char>>)
    requires
        forall|i: int| 0 <= i < ls.len() ==> !breaks_a_word(#[trigger] ls[i]),
    ensures
        chars::words(pdf::rejoin_lines(ls)) == fidelity::all_words(ls),
        pdf::rejoin_lines(ls).len() > 0 ==> pdf::rejoin_lines(ls).last() != '-',
    decreases ls.len(),
{
    if ls.len() > 0 {
        let before = ls.drop_last();
        assert forall|i: int| 0 <= i < before.len() implies !breaks_a_word(
            #[trigger] before[i],
        ) by {
            assert(before[i] == ls[i]);
        }
        lemma_rejoin_words(before);
        let out = pdf::rejoin_lines(before);
        let t = chars::trim(ls.last());
        assert(!breaks_a_word(ls[ls.len() - 1]));
        fidelity::lemma_words_trim(ls.last());
        if t.len() == 0 {
            assert(chars::words(t) =~= seq![]);
        } else if out.len() == 0 {
            assert(chars::words(out) =~= seq![]);
            assert(chars::words(t) =~= chars::words(out) + chars::words(t));
        } else {
            fidelity::lemma_words_apart(out, ' ', t);
            assert(out.push(' ') + t =~= out + seq![' '] + t);
        }
    }
}

spec fn page_words(p: PageV) -> Seq<Seq<char>> {
    fidelity::all_words(fidelity::block_texts(p.blocks)) + fidelity::all_words(p.pending)
}

spec fn unbroken(ls: Seq<Seq<char>>) -> bool {
    forall|i: int| 0 <= i < ls.len() ==> !breaks_a_word(#[trigger] ls[i]) && !ls[i].contains('\n')
}

proof fn lemma_pushed_words(bs: Seq<BlockV>, b: BlockV, t: Seq<char>)
    requires
        fidelity::texts_of(b) == seq![t],
    ensures
        fidelity::all_words(fidelity::block_texts(bs.push(b))) == fidelity::all_words(
            fidelity::block_texts(bs),
        ) + chars::words(t),
{
    fidelity::lemma_block_texts_push(bs, b);
    fidelity::lemma_all_words_concat(fidelity::block_texts(bs), seq![t]);
    fidelity::lemma_all_words_one(t);
}

/// The lines of joined lines: a carriage return at a line's end aside, the same.
proof fn lemma_lines_unbroken(ls: Seq<Seq<char>>)
    requires
        unbroken(ls),
    ensures
        forall|i: int|
            0 <= i < chars::lines(chars::join(ls, "\n"@)).len() ==> !breaks_a_word(
                #[trigger] chars::lines(chars::join(ls, "\n"@))[i],
            ),
    decreases ls.len(),
{
    reveal_strlit("\n");
    assert("\n"@ =~= seq!['\n']);
    let s = chars::join(ls, "\n"@);
    if ls.len() == 1 {
        assert(!breaks_a_word(ls[0]) && !ls[0].contains('\n'));
        assert forall|i: int| 0 <= i < s.len() implies #[trigger] s[i] != '\n' by {
            assert(ls[0].contains(s[i]));
        }
        chars::lemma_line_len_at(s, s.len() as int);
        if s.len() > 0 {
            assert(chars::lines(s) == seq![s]);
        }
    } else if ls.len() > 1 {
        let rest = ls.skip(1);
        chars::lemma_join_front(ls, "\n"@);
        assert forall|i: int| 0 <= i < rest.len() implies !breaks_a_word(#[trigger] rest[i])
            && !rest[i].contains('\n') by {
            assert(rest[i] == ls[i + 1]);
        }
        lemma_lines_unbroken(rest);
        let n = ls[0].len() as int;
        let tail = chars::join(rest, "\n"@);
        assert(!breaks_a_word(ls[0]) && !ls[0].contains('\n'));
        assert forall|i: int| 0 <= i < n implies #[trigger] s[i] != '\n' by {
            assert(ls[0].contains(s[i])) by {
                assert(s[i] == ls[0][i]);
            }
        }
        assert(s[n] == '\n');
        chars::lemma_line_len_at(s, n);
        assert(s.take(n) =~= ls[0]);
        assert(s.skip(n + 1) =~= tail);
        let all = chars::lines(s);
        assert(all == seq![chars::strip_cr(ls[0])] + chars::lines(tail));
        lemma_strip_cr_trims(ls[0]);
        assert forall|i: int| 0 <= i < all.len() implies !breaks_a_word(#[trigger] all[i]) by {
            if i > 0 {
                assert(all[i] == chars::lines(tail)[i - 1]);
            }
        }
    }
}

proof fn lemma_strip_cr_trims(s: Seq<char>)
    ensures
        chars::trim(chars::strip_cr(s)) == chars::trim(s),
{
    if s.len() > 0 && s.last() == '\r' {
        crate::guarantees::lemma_trim_start_trimmed(s);
        crate::guarantees::lemma_trim_start_trimmed(s.drop_last());
    }
}

proof fn lemma_flushed_words(p: PageV)
    requires
        unbroken(p.pending),
    ensures
        page_words(p.flushed()) == page_words(p),
        p.flushed().pending.len() == 0,
{
    if p.pending.len() > 0 {
        reveal_strlit("\n");
        assert("\n"@ =~= seq!['\n']);
        let joined = chars::join(p.pending, "\n"@);
        let ls = chars::lines(joined);
        let t = pdf::spec_rejoin(joined);
        lemma_lines_unbroken(p.pending);
        fidelity::lemma_words_join(p.pending, '\n');
        fidelity::lemma_words_lines(joined);
        lemma_rejoin_words(ls);
        converters::squeezing_is_idempotent(pdf::rejoin_lines(ls));
        assert(chars::words(t) == fidelity::all_words(p.pending));
        if t.len() == 0 {
            assert(chars::words(t) =~= seq![]);
        } else {
            fidelity::lemma_plain_text(t);
            lemma_pushed_words(p.blocks, BlockV::Paragraph(seq![SpanV::Text(t)]), t);
        }
        assert(page_words(p.flushed()) =~= page_words(p));
    }
}

proof fn lemma_line_words(p: PageV, line: Seq<char>)
    requires
        unbroken(p.pending),
        !breaks_a_word(line),
        !line.contains('\n'),
    ensures
        page_words(p.with_line(line)) == page_words(p) + chars::words(line),
        unbroken(p.with_line(line).pending),
{
    let t = chars::trim(line);
    lemma_flushed_words(p);
    fidelity::lemma_words_trim(line);
    if t.len() == 0 {
        assert(chars::words(t) =~= seq![]);
        assert(page_words(p) + chars::words(line) =~= page_words(p));
    } else {
        match pdf::spec_heading_shape(t) {
            Some(level) => {
                let h = converters::spec_squeeze(t);
                let b = BlockV::Heading { level, text: seq![SpanV::Text(h)] };
                converters::squeezing_is_idempotent(t);
                fidelity::lemma_plain_text(h);
                lemma_pushed_words(p.flushed().blocks, b, h);
                assert(p.flushed().pending =~= seq![]);
                assert(page_words(p.with_line(line)) =~= page_words(p) + chars::words(line));
            },
            None => {
                assert(p.pending.push(line).drop_last() =~= p.pending);
                assert(page_words(p.with_line(line)) =~= page_words(p) + chars::words(line));
            },
        }
    }
}

proof fn lemma_run_words(ls: Seq<Seq<char>>, fired: bool)
    requires
        unbroken(ls),
    ensures
        page_words(pdf::page_run(ls, fired)) == fidelity::all_words(ls),
        unbroken(pdf::page_run(ls, fired).pending),
    decreases ls.len(),
{
    if ls.len() == 0 {
        assert(page_words(pdf::page_run(ls, fired)) =~= seq![]);
    } else {
        let before = ls.drop_last();
        assert forall|i: int| 0 <= i < before.len() implies !breaks_a_word(#[trigger] before[i])
            && !before[i].contains('\n') by {
            assert(before[i] == ls[i]);
        }
        assert(!breaks_a_word(ls[ls.len() - 1]) && !ls[ls.len() - 1].contains('\n'));
        lemma_run_words(before, fired);
        lemma_line_words(pdf::page_run(before, fired), ls.last());
    }
}

/// No line holds a line feed.
proof fn lemma_lines_are_lines(s: Seq<char>)
    ensures
        forall|i: int|
            0 <= i < chars::lines(s).len() ==> !(#[trigger] chars::lines(s)[i]).contains('\n'),
    decreases s.len(),
{
    if s.len() > 0 {
        let n = chars::line_len(s);
        chars::lemma_line_len(s);
        let all = chars::lines(s);
        if n < s.len() {
            lemma_lines_are_lines(s.skip(n + 1));
            assert forall|i: int| 0 <= i < all.len() implies !(#[trigger] all[i]).contains(
                '\n',
            ) by {
                if i == 0 {
                    let h = chars::strip_cr(s.take(n));
                    assert forall|k: int| 0 <= k < h.len() implies #[trigger] h[k] != '\n' by {
                        assert(h[k] == s[k]);
                    }
                } else {
                    assert(all[i] == chars::lines(s.skip(n + 1))[i - 1]);
                }
            }
        } else {
            assert(all == seq![s]);
        }
    }
}

/// On a page without hyphens at line ends, the words of the blocks are the words
/// of the page, in its order.
pub proof fn pages_keep_their_words(page: Seq<char>, fired: bool)
    requires
        forall|i: int|
            0 <= i < chars::lines(page).len() ==> !breaks_a_word(#[trigger] chars::lines(page)[i]),
    ensures
        fidelity::all_words(fidelity::block_texts(pdf::spec_page_blocks(page, fired).blocks))
            == chars::words(page),
{
    let ls = chars::lines(page);
    let p = pdf::page_run(ls, fired);
    lemma_lines_are_lines(page);
    lemma_run_words(ls, fired);
    lemma_flushed_words(p);
    fidelity::lemma_words_lines(page);
    assert(p.flushed().pending =~= seq![]);
    assert(page_words(p.flushed()) =~= fidelity::all_words(
        fidelity::block_texts(p.flushed().blocks),
    ));
}

proof fn lemma_pages_keep(pages: Seq<Seq<char>>, i: int, s: PagesV, c: CxV)
    requires
        0 <= i <= pages.len(),
    ensures
        pdf::pages_from(pages, i, s, c).0 matches Ok(r) ==> fidelity::all_strokes(
            fidelity::block_texts(r.doc.blocks),
            '-',
        ) == fidelity::all_strokes(fidelity::block_texts(s.doc.blocks), '-')
            + fidelity::all_strokes(pages.skip(i), '-'),
    decreases pages.len() - i,
{
    let shown = fidelity::all_strokes(fidelity::block_texts(s.doc.blocks), '-');
    if i < pages.len() {
        let n = chars::byte_len(pages[i]) as u64;
        let after = c.with_budget(c.budget().expand(n));
        let rest = pages.skip(i + 1);
        assert(pages.skip(i) =~= seq![pages[i]] + rest);
        fidelity::lemma_all_strokes_concat(seq![pages[i]], rest, '-');
        fidelity::lemma_all_strokes_one(pages[i], '-');
        if chars::is_blank(pages[i]) {
            fidelity::lemma_strokes_blank(pages[i], '-');
            let t = PagesV { empty: s.empty.push((i + 1) as usize), ..s };
            lemma_pages_keep(pages, i + 1, t, after);
        } else {
            let p = pdf::spec_page_blocks(pages[i], s.fired);
            let t = PagesV { doc: s.doc.extended(p.blocks), fired: p.fired, ..s };
            pages_keep_their_text(pages[i], s.fired);
            fidelity::lemma_block_texts_concat(s.doc.blocks, p.blocks);
            fidelity::lemma_all_strokes_concat(
                fidelity::block_texts(s.doc.blocks),
                fidelity::block_texts(p.blocks),
                '-',
            );
            lemma_pages_keep(pages, i + 1, t, after);
            assert(shown + fidelity::strokes(pages[i], '-') + fidelity::all_strokes(rest, '-')
                =~= shown + (fidelity::strokes(pages[i], '-') + fidelity::all_strokes(rest, '-')));
        }
    } else {
        assert(pages.skip(i) =~= seq![]);
    }
}

/// A file's document shows the text of all its pages, in their order, but for
/// white space and hyphens.
pub proof fn files_keep_their_pages(
    d: DocumentV,
    pages: Seq<Seq<char>>,
    info: StreamInfoV,
    pre: CxV,
)
    requires
        d.blocks.len() == 0,
    ensures
        pdf::pdf_result(d, ExtractedV::Ready(pages), info, pre).0 matches Ok(r)
            ==> fidelity::all_strokes(fidelity::block_texts(r.blocks), '-')
            == fidelity::all_strokes(pages, '-'),
{
    lemma_pages_keep(pages, 0, PagesV { doc: d, empty: seq![], fired: false }, pre);
    assert(pages.skip(0) =~= pages);
    assert(fidelity::all_strokes(fidelity::block_texts(d.blocks), '-') =~= seq![]);
    if pages.len() == 0 {
        assert(fidelity::all_strokes(pages, '-') =~= seq![]);
    }
}

} // verus!

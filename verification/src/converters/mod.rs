//! The converters of this library.

use vstd::prelude::*;
use crate::chars;
use crate::detect;
use crate::ir;
use crate::ir::{Block, BlockV, Inline, SpanV};

pub mod builtin;
pub mod csv;
pub mod epub;
pub mod extract;
pub mod html;
pub mod json;
pub mod media;
pub mod msg;
pub mod ooxml;
pub mod pdf;
pub mod sheet;
pub mod text;
pub mod xml;
pub mod zip;

verus! {

/// What `encoding_rs` makes of bytes under an encoding label.
pub uninterp spec fn decoded(label: Seq<char>, bytes: Seq<u8>) -> Option<Seq<char>>;

/// `encoding_rs::Encoding::for_label` and `Encoding::decode`: the text of the
/// bytes under the label, a function of both; nothing where the label is
/// unknown. `utf-8` and `windows-1252` are known labels.
#[verifier::external_body]
pub(crate) fn decode_as(label: &str, bytes: &[u8]) -> (r: Option<String>)
    ensures
        chars::opt(r) == decoded(label@, bytes@),
        label@ == "utf-8"@ || label@ == "windows-1252"@ ==> r is Some,
{
    encoding_rs::Encoding::for_label(label.as_bytes()).map(|e| e.decode(bytes).0.into_owned())
}

/// The label under which a text is decoded: the given one, else what the bytes
/// say.
pub open spec fn text_label(bytes: Seq<u8>, charset: Option<Seq<char>>) -> Seq<char> {
    match charset {
        Some(c) => if c.len() > 0 {
            c
        } else {
            detect::spec_sniff_charset(bytes)
        },
        None => detect::spec_sniff_charset(bytes),
    }
}

/// `s` without one leading byte-order mark.
pub open spec fn strip_bom(s: Seq<char>) -> Seq<char> {
    if s.len() > 0 && s[0] == '\u{feff}' {
        s.skip(1)
    } else {
        s
    }
}

/// The bytes as text: under their label, or as UTF-8 where the label is
/// unknown.
pub open spec fn spec_decode_text(bytes: Seq<u8>, charset: Option<Seq<char>>) -> Seq<char> {
    strip_bom(
        match decoded(text_label(bytes, charset), bytes) {
            Some(t) => t,
            None => match decoded("utf-8"@, bytes) {
                Some(t) => t,
                None => seq![],
            },
        },
    )
}

/// The bytes as text.
#[must_use]
pub fn decode_text(bytes: &[u8], charset: Option<&str>) -> (r: String)
    ensures
        r@ == spec_decode_text(
            bytes@,
            match charset {
                Some(c) => Some(c@),
                None => None,
            },
        ),
{
    let label: String = match charset {
        Some(c) => if !crate::text::is_empty(c) {
            c.to_owned()
        } else {
            detect::sniff_charset(bytes)
        },
        None => detect::sniff_charset(bytes),
    };
    let t = match decode_as(&label, bytes) {
        Some(t) => t,
        None => match decode_as("utf-8", bytes) {
            Some(t) => t,
            None => String::new(),
        },
    };
    let v = crate::text::to_chars(&t);
    if v.len() > 0 && v[0] == '\u{feff}' {
        crate::text::skip(&t, 1)
    } else {
        t
    }
}

/// The text of an input whose encoding may be known.
pub(crate) fn decode_info(bytes: &[u8], charset: &Option<String>) -> (r: String)
    ensures
        r@ == spec_decode_text(bytes@, chars::opt(*charset)),
{
    match charset {
        Some(c) => decode_text(bytes, Some(c.as_str())),
        None => decode_text(bytes, None),
    }
}

/// The words of a text with single spaces between them.
pub open spec fn spec_squeeze(s: Seq<char>) -> Seq<char> {
    chars::join(chars::words(s), " "@)
}

/// Collapses white space: the words of a text with single spaces between them.
#[must_use]
pub fn squeeze(s: &str) -> (r: String)
    ensures
        r@ == spec_squeeze(s@),
{
    let w = crate::text::words(s);
    crate::text::join(&w, " ")
}

/// The paragraphs that parts of a text make: trimmed, on one line each, blank
/// ones left out.
pub open spec fn para_blocks(parts: Seq<Seq<char>>) -> Seq<BlockV>
    decreases parts.len(),
{
    if parts.len() == 0 {
        seq![]
    } else {
        let t = para_blocks(parts.drop_last());
        let p = chars::trim(parts.last());
        if p.len() == 0 {
            t
        } else {
            t.push(BlockV::Paragraph(seq![SpanV::Text(chars::replace(p, "\n"@, " "@))]))
        }
    }
}

/// The paragraphs of a text: what stands between empty lines.
pub open spec fn spec_paragraphs(s: Seq<char>) -> Seq<BlockV> {
    para_blocks(chars::split(s, "\n\n"@))
}

/// The paragraphs of a text.
pub(crate) fn paragraphs(s: &str) -> (r: Vec<Block>)
    ensures
        ir::blocks_view(r@) == spec_paragraphs(s@),
{
    let parts = crate::text::split(s, "\n\n");
    let ghost v = chars::texts(parts@);
    let mut out: Vec<Block> = Vec::new();
    let mut i: usize = 0;
    assert(ir::blocks_view(out@) =~= seq![]);
    while i < parts.len()
        invariant
            i <= parts@.len(),
            v == chars::texts(parts@),
            ir::blocks_view(out@) == para_blocks(v.take(i as int)),
        decreases parts@.len() - i,
    {
        assert(v.take(i + 1).drop_last() =~= v.take(i as int));
        assert(v.take(i + 1).last() == parts@[i as int]@);
        let p = crate::text::trim(&parts[i]);
        if !crate::text::is_empty(&p) {
            let b = Block::Paragraph(Inline::text(crate::text::replace(&p, "\n", " ")));
            proof {
                ir::lemma_blocks_push(out@, b);
            }
            out.push(b);
        }
        i += 1;
    }
    assert(v.take(v.len() as int) =~= v);
    out
}

/// A run of characters that are no white space.
pub open spec fn is_word(w: Seq<char>) -> bool {
    w.len() > 0 && forall|i: int| 0 <= i < w.len() ==> !chars::is_space(#[trigger] w[i])
}

proof fn lemma_word_len(s: Seq<char>)
    ensures
        0 <= chars::word_len(s) <= s.len(),
        s.len() > 0 && !chars::is_space(s[0]) ==> chars::word_len(s) > 0,
        forall|i: int| 0 <= i < chars::word_len(s) ==> !chars::is_space(#[trigger] s[i]),
    decreases s.len(),
{
    if s.len() > 0 && !chars::is_space(s[0]) {
        lemma_word_len(s.skip(1));
        assert forall|i: int| 0 <= i < chars::word_len(s) implies !chars::is_space(
            #[trigger] s[i],
        ) by {
            if i > 0 {
                assert(s[i] == s.skip(1)[i - 1]);
            }
        }
    }
}

proof fn lemma_words(s: Seq<char>)
    ensures
        forall|i: int| 0 <= i < chars::words(s).len() ==> is_word(#[trigger] chars::words(s)[i]),
    decreases s.len(),
{
    if s.len() > 0 {
        if chars::is_space(s[0]) {
            lemma_words(s.skip(1));
            let ws = chars::words(s.skip(1));
            assert(chars::words(s) == ws);
            assert forall|i: int| 0 <= i < chars::words(s).len() implies is_word(
                #[trigger] chars::words(s)[i],
            ) by {
                assert(is_word(ws[i]));
            }
        } else {
            let n = chars::word_len(s);
            lemma_word_len(s);
            lemma_words(s.skip(n));
            let ws = chars::words(s);
            assert(ws == seq![s.take(n)] + chars::words(s.skip(n)));
            assert forall|i: int| 0 <= i < ws.len() implies is_word(#[trigger] ws[i]) by {
                if i == 0 {
                    assert forall|k: int| 0 <= k < n implies !chars::is_space(
                        #[trigger] s.take(n)[k],
                    ) by {
                        assert(s.take(n)[k] == s[k]);
                    }
                } else {
                    assert(ws[i] == chars::words(s.skip(n))[i - 1]);
                }
            }
        }
    }
}

proof fn lemma_words_of_joined(ws: Seq<Seq<char>>)
    requires
        forall|i: int| 0 <= i < ws.len() ==> is_word(#[trigger] ws[i]),
    ensures
        chars::words(chars::join(ws, " "@)) == ws,
    decreases ws.len(),
{
    reveal_strlit(" ");
    let t = chars::join(ws, " "@);
    if ws.len() == 0 {
        assert(ws =~= seq![]);
    } else {
        assert(is_word(ws[0]));
        let n = ws[0].len() as int;
        if ws.len() == 1 {
            assert forall|i: int| 0 <= i < n implies !chars::is_space(#[trigger] t[i]) by {
                assert(t[i] == ws[0][i]);
            }
            chars::lemma_word_len_at(t, n);
            assert(t.take(n) =~= ws[0]);
            assert(t.skip(n) =~= seq![]);
            assert(chars::words(t.skip(n)) =~= seq![]);
            assert(chars::words(t) =~= ws);
        } else {
            let rest = ws.skip(1);
            chars::lemma_join_front(ws, " "@);
            assert forall|i: int| 0 <= i < rest.len() implies is_word(#[trigger] rest[i]) by {
                assert(rest[i] == ws[i + 1]);
            }
            lemma_words_of_joined(rest);
            let r = chars::join(rest, " "@);
            assert forall|i: int| 0 <= i < n implies !chars::is_space(#[trigger] t[i]) by {
                assert(t[i] == ws[0][i]);
            }
            assert(t[n] == ' ');
            chars::lemma_word_len_at(t, n);
            assert(t.take(n) =~= ws[0]);
            assert(t.skip(n) =~= " "@ + r);
            assert(t.skip(n)[0] == ' ');
            assert(t.skip(n).skip(1) =~= r);
            assert(chars::words(t.skip(n)) == chars::words(r));
            assert(chars::words(t) =~= seq![ws[0]] + rest);
            assert(seq![ws[0]] + rest =~= ws);
        }
    }
}

/// Collapsing white space twice changes nothing: what is left are the words.
pub proof fn squeezing_is_idempotent(s: Seq<char>)
    ensures
        spec_squeeze(spec_squeeze(s)) == spec_squeeze(s),
        chars::words(spec_squeeze(s)) == chars::words(s),
{
    lemma_words(s);
    lemma_words_of_joined(chars::words(s));
}

} // verus!

//! HTML.

use vstd::prelude::*;
use crate::chars;
use crate::converters;
use crate::converters::extract::{Extracted, ExtractedV, Extractor, text_view};
use crate::converters::{decode_info, squeeze};
use crate::cx::{ConvertCx, CxV};
use crate::error::{ConvertError, ErrorV, Warning, WarningKind, WarningV};
use crate::ir;
use crate::ir::{Block, BlockV, Document, DocumentV, Metadata, MetadataV};
use crate::registry;
use crate::registry::{Converter, PRIORITY_GENERIC};
use crate::stream_info::{Probe, ProbeV, StreamInfo, StreamInfoV};
use crate::text;

verus! {

/// HTML; the host turns the prose into Markdown.
pub struct HtmlConverter<X>(pub X);

pub open spec fn html_takes(probe: ProbeV, info: StreamInfoV) -> bool {
    probe.looks_textual() && (info.is_mime("text/html"@) || info.is_ext("html"@) || info.is_ext(
        "htm"@,
    ) || info.is_ext("xhtml"@) || (info.mimetype is None && info.extension is None && (
    chars::starts_with(probe.leading_text(256), "<!doctype html"@) || chars::starts_with(
        probe.leading_text(256),
        "<html"@,
    ))))
}

/// `char::from_u32`: the character of a Unicode scalar value, nothing for any
/// other number.
pub assume_specification[ char::from_u32 ](n: u32) -> (r: Option<char>)
    ensures
        r is Some == is_scalar(n as nat),
        r matches Some(c) ==> c == n as char,
;

/// A number that stands for a character.
pub open spec fn is_scalar(n: nat) -> bool {
    n <= 0x10ffff && !(0xd800 <= n <= 0xdfff)
}

/// The value of a digit, in base ten or sixteen.
pub open spec fn digit_of(c: char, hex: bool) -> Option<nat> {
    if '0' <= c && c <= '9' {
        Some((c as nat - '0' as nat) as nat)
    } else if hex && 'a' <= c && c <= 'f' {
        Some((c as nat - 'a' as nat + 10) as nat)
    } else if hex && 'A' <= c && c <= 'F' {
        Some((c as nat - 'A' as nat + 10) as nat)
    } else {
        None
    }
}

/// How many digits `s` begins with.
pub open spec fn digit_run(s: Seq<char>, hex: bool) -> int
    decreases s.len(),
{
    if s.len() > 0 && digit_of(s[0], hex) is Some {
        1 + digit_run(s.skip(1), hex)
    } else {
        0
    }
}

pub open spec fn digits_value(s: Seq<char>, hex: bool) -> nat
    decreases s.len(),
{
    if s.len() == 0 {
        0
    } else {
        let base: nat = if hex {
            16
        } else {
            10
        };
        digits_value(s.drop_last(), hex) * base + (match digit_of(s.last(), hex) {
            Some(d) => d,
            None => 0,
        })
    }
}

/// The numeric entity that `s` begins with, given what stands before its
/// digits: its length and its character.
pub open spec fn numbered_entity(s: Seq<char>, prefix: Seq<char>, hex: bool) -> Option<(int, char)> {
    let t = s.skip(prefix.len() as int);
    let n = digit_run(t, hex);
    let v = digits_value(t.take(n), hex);
    if chars::starts_with(s, prefix) && n > 0 && n < t.len() && t[n] == ';' && is_scalar(v) {
        Some((prefix.len() + n + 1, v as char))
    } else {
        None
    }
}

/// The entity that `s` begins with: its length and its character.
pub open spec fn entity_at(s: Seq<char>) -> Option<(int, char)> {
    if chars::starts_with(s, "&lt;"@) {
        Some((4, '<'))
    } else if chars::starts_with(s, "&gt;"@) {
        Some((4, '>'))
    } else if chars::starts_with(s, "&quot;"@) {
        Some((6, '"'))
    } else if chars::starts_with(s, "&apos;"@) {
        Some((6, '\''))
    } else if chars::starts_with(s, "&nbsp;"@) {
        Some((6, ' '))
    } else if chars::starts_with(s, "&amp;"@) {
        Some((5, '&'))
    } else if chars::starts_with(s, "&#x"@) {
        numbered_entity(s, "&#x"@, true)
    } else if chars::starts_with(s, "&#X"@) {
        numbered_entity(s, "&#X"@, true)
    } else {
        numbered_entity(s, "&#"@, false)
    }
}

/// The text with its entities decoded, each once: the predefined ones, the
/// non-breaking space and the numeric forms.
pub open spec fn spec_decode_entities(s: Seq<char>) -> Seq<char>
    decreases s.len(),
{
    if s.len() == 0 {
        seq![]
    } else {
        match entity_at(s) {
            Some(e) => if 0 < e.0 <= s.len() {
                seq![e.1] + spec_decode_entities(s.skip(e.0))
            } else {
                seq![]
            },
            None => seq![s[0]] + spec_decode_entities(s.skip(1)),
        }
    }
}

/// The text of the first `title` element, unless it is blank.
pub open spec fn spec_extract_title(html: Seq<char>) -> Option<Seq<char>> {
    let low = chars::lower(html);
    match chars::find(low, "<title"@) {
        Some(start) => match chars::find_from(low, ">"@, start) {
            Some(gt) => match chars::find_from(low, "</title>"@, gt + 1) {
                Some(end) => {
                    let t = converters::spec_squeeze(
                        spec_decode_entities(html.subrange(gt + 1, end)),
                    );
                    if t.len() == 0 {
                        None
                    } else {
                        Some(t)
                    }
                },
                None => None,
            },
            None => None,
        },
        None => None,
    }
}

/// How many characters stand before white space or a closing bracket.
pub open spec fn bare_len(s: Seq<char>) -> int
    decreases s.len(),
{
    if s.len() == 0 || chars::is_space(s[0]) || s[0] == '>' {
        0
    } else {
        1 + bare_len(s.skip(1))
    }
}

/// The value of an attribute inside a tag's text.
pub open spec fn spec_attr_value(tag: Seq<char>, attr: Seq<char>) -> Option<Seq<char>> {
    match chars::find(chars::lower(tag), attr + "="@) {
        Some(p) => {
            let rest = tag.skip(p + (attr + "="@).len());
            if rest.len() == 0 {
                None
            } else if rest[0] == '"' || rest[0] == '\'' {
                match chars::find(rest.skip(1), seq![rest[0]]) {
                    Some(k) => Some(rest.skip(1).take(k)),
                    None => None,
                }
            } else {
                Some(rest.take(bare_len(rest)))
            }
        },
        None => None,
    }
}

/// The name and content of a `meta` tag that has both.
pub open spec fn meta_pair(tag: Seq<char>) -> Seq<(Seq<char>, Seq<char>)> {
    let name = match spec_attr_value(tag, "name"@) {
        Some(n) => Some(n),
        None => spec_attr_value(tag, "property"@),
    };
    match (name, spec_attr_value(tag, "content"@)) {
        (Some(n), Some(c)) => seq![(chars::lower(n), spec_decode_entities(c))],
        _ => seq![],
    }
}

/// The `meta` pairs from position `i` on.
pub open spec fn metas_from(html: Seq<char>, i: int) -> Seq<(Seq<char>, Seq<char>)>
    decreases html.len() - i,
{
    let low = chars::lower(html);
    match chars::find_from(low, "<meta"@, i) {
        Some(start) => match chars::find_from(low, ">"@, start) {
            Some(gt) => {
                proof {
                    chars::lemma_find_from(low, "<meta"@, i);
                    chars::lemma_find_from(low, ">"@, start);
                    reveal_strlit(">");
                }
                meta_pair(html.subrange(start, gt)) + metas_from(html, gt + 1)
            },
            None => seq![],
        },
        None => seq![],
    }
}

pub open spec fn apply_meta(m: MetadataV, pair: (Seq<char>, Seq<char>)) -> MetadataV {
    if pair.0 == "author"@ {
        MetadataV { author: Some(pair.1), ..m }
    } else if pair.0 == "description"@ || pair.0 == "keywords"@ {
        m.with(pair.0, pair.1)
    } else {
        m
    }
}

pub open spec fn apply_metas(m: MetadataV, pairs: Seq<(Seq<char>, Seq<char>)>) -> MetadataV
    decreases pairs.len(),
{
    if pairs.len() == 0 {
        m
    } else {
        apply_meta(apply_metas(m, pairs.drop_last()), pairs.last())
    }
}

/// The nearer of what was found so far and a tag at `at`.
pub open spec fn nearer(best: Option<(int, Seq<char>)>, at: Option<int>, close: Seq<char>) -> Option<
    (int, Seq<char>),
> {
    match (best, at) {
        (Some(b), Some(p)) => if p < b.0 {
            Some((p, close))
        } else {
            best
        },
        (None, Some(p)) => Some((p, close)),
        (_, None) => best,
    }
}

/// A tag's name ends at `at`.
pub open spec fn name_ends(s: Seq<char>, at: int) -> bool {
    at >= s.len() || s[at] == '>' || s[at] == '/' || chars::is_space(s[at])
}

/// Where a tag of this name opens next.
pub open spec fn find_tag(low: Seq<char>, tag: Seq<char>, i: int) -> Option<int>
    decreases low.len() - i + 1,
{
    match chars::find_from(low, tag, i) {
        Some(p) => {
            proof {
                chars::lemma_find_from(low, tag, i);
            }
            if name_ends(low, p + tag.len()) {
                Some(p)
            } else {
                find_tag(low, tag, p + 1)
            }
        },
        None => None,
    }
}

proof fn lemma_find_tag(low: Seq<char>, tag: Seq<char>, i: int)
    ensures
        find_tag(low, tag, i) matches Some(p) ==> 0 <= i <= p && p + tag.len() <= low.len(),
    decreases low.len() - i + 1,
{
    chars::lemma_find_from(low, tag, i);
    if let Some(p) = chars::find_from(low, tag, i) {
        if !name_ends(low, p + tag.len()) {
            lemma_find_tag(low, tag, p + 1);
        }
    }
}

/// The next stretch that is no prose: where it starts, and what ends it.
pub open spec fn next_hidden(low: Seq<char>, i: int) -> Option<(int, Seq<char>)> {
    let a = nearer(None, find_tag(low, "<script"@, i), "</script>"@);
    let b = nearer(a, find_tag(low, "<style"@, i), "</style>"@);
    let c = nearer(b, find_tag(low, "<head"@, i), "</head>"@);
    nearer(c, chars::find_from(low, "<!--"@, i), "-->"@)
}

pub proof fn lemma_next_hidden(low: Seq<char>, i: int)
    ensures
        next_hidden(low, i) matches Some(h) ==> i <= h.0 && 0 <= i && h.0 <= low.len()
            && h.1.len() > 0,
{
    lemma_find_tag(low, "<script"@, i);
    lemma_find_tag(low, "<style"@, i);
    lemma_find_tag(low, "<head"@, i);
    chars::lemma_find_from(low, "<!--"@, i);
    reveal_strlit("</script>");
    reveal_strlit("</style>");
    reveal_strlit("</head>");
    reveal_strlit("-->");
}

/// The HTML from position `i` on without scripts, styles, heads and comments;
/// an unclosed one swallows the rest.
pub open spec fn prose_from(html: Seq<char>, i: int) -> Seq<char>
    decreases html.len() - i,
{
    let low = chars::lower(html);
    if i >= html.len() {
        seq![]
    } else {
        match next_hidden(low, i) {
            Some(h) => html.subrange(i, h.0) + (match chars::find_from(low, h.1, h.0) {
                Some(p) => {
                    proof {
                        lemma_next_hidden(low, i);
                        chars::lemma_find_from(low, h.1, h.0);
                    }
                    prose_from(html, p + h.1.len())
                },
                None => seq![],
            }),
            None => html.skip(i),
        }
    }
}

pub open spec fn no_prose() -> WarningV {
    WarningV {
        kind: WarningKind::NoTextLayer,
        message: "the HTML carried no extractable prose"@,
    }
}

/// What an HTML text becomes, given its Markdown.
pub open spec fn html_document(html: Seq<char>, markdown: ExtractedV<Seq<char>>) -> Result<
    DocumentV,
    ErrorV,
> {
    let titled = match spec_extract_title(html) {
        Some(t) => ir::empty_document().titled(t),
        None => ir::empty_document(),
    };
    let d = DocumentV { metadata: apply_metas(titled.metadata, metas_from(html, 0)), ..titled };
    match markdown {
        ExtractedV::Ready(m) => Ok(
            if chars::is_blank(m) {
                d.warned(no_prose())
            } else {
                d.pushed(BlockV::Raw { markdown: chars::trim(m) })
            },
        ),
        ExtractedV::Failed(e) => Err(ErrorV::Malformed { format: "html"@, message: e }),
        ExtractedV::Panicked => Err(ErrorV::ConverterPanic { format: "html"@ }),
    }
}

/// What an HTML text may become: that the time ran out at once, or what the
/// host makes of its prose.
pub open spec fn html_converts<X: Extractor>(
    tools: X,
    bytes: Seq<u8>,
    info: StreamInfoV,
    pre: CxV,
    post: CxV,
    r: Result<DocumentV, ErrorV>,
) -> bool {
    let html = converters::spec_decode_text(bytes, info.charset);
    post == pre && (registry::late(pre, r) || exists|markdown: ExtractedV<Seq<char>>| #[trigger]
        tools.may_give_markdown(prose_from(html, 0), markdown) && r == html_document(
            html,
            markdown,
        ))
}

fn digit_value(c: char, hex: bool) -> (r: Option<u32>)
    ensures
        r is Some == digit_of(c, hex) is Some,
        r matches Some(d) ==> digit_of(c, hex) == Some(d as nat) && d < 16,
{
    if '0' <= c && c <= '9' {
        Some(c as u32 - '0' as u32)
    } else if hex && 'a' <= c && c <= 'f' {
        Some(c as u32 - 'a' as u32 + 10)
    } else if hex && 'A' <= c && c <= 'F' {
        Some(c as u32 - 'A' as u32 + 10)
    } else {
        None
    }
}

fn numbered(v: &Vec<char>, i: usize, prefix: usize, hex: bool) -> (r: Option<(usize, char)>)
    requires
        i + prefix <= v@.len(),
    ensures
        ({
            let t = v@.skip(i as int).skip(prefix as int);
            let n = digit_run(t, hex);
            let x = digits_value(t.take(n), hex);
            let fits = n > 0 && n < t.len() && t[n] == ';' && is_scalar(x);
            &&& r is Some == fits
            &&& r matches Some(e) ==> e.0 == prefix + n + 1 && e.1 == x as char && i + e.0
                <= v@.len()
        }),
{
    let ghost t = v@.skip(i as int).skip(prefix as int);
    let len: usize = v.len();
    let start: usize = i + prefix;
    let mut k: usize = start;
    let mut x: u64 = 0;
    assert(t.take(0) =~= seq![]);
    assert(t.skip(0) =~= t);
    let base: u64 = if hex {
        16
    } else {
        10
    };
    let mut more = true;
    while more && k < v.len()
        invariant
            start == i + prefix,
            start <= k <= v@.len(),
            t == v@.skip(i as int).skip(prefix as int),
            base == if hex {
                16u64
            } else {
                10
            },
            x <= 0x110000,
            x < 0x110000 ==> x == digits_value(t.take(k - start), hex),
            x == 0x110000 ==> digits_value(t.take(k - start), hex) >= 0x110000,
            digit_run(t, hex) == (k - start) + digit_run(t.skip(k - start), hex),
            !more ==> digit_run(t.skip(k - start), hex) == 0,
        decreases v@.len() - k + (if more {
            1int
        } else {
            0
        }),
    {
        let ghost m = k - start;
        assert(t[m] == v@[k as int]);
        assert(t.skip(m)[0] == t[m]);
        assert(t.skip(m).skip(1) =~= t.skip(m + 1));
        assert(t.take(m + 1).drop_last() =~= t.take(m));
        assert(t.take(m + 1).last() == t[m]);
        match digit_value(v[k], hex) {
            Some(d) => {
                let y: u64 = x * base + d as u64;
                proof {
                    let w = digits_value(t.take(m), hex);
                    assert(w >= x ==> w * base >= x * base) by (nonlinear_arith);
                }
                x = if y > 0x110000 {
                    0x110000
                } else {
                    y
                };
                k += 1;
            },
            None => {
                more = false;
            },
        }
    }
    let ghost n = k - start;
    if k == v.len() {
        assert(t.skip(n).len() == 0);
    }
    if k == start || k >= v.len() || v[k] != ';' {
        return None;
    }
    assert(t[n] == v@[k as int]);
    assert(digit_run(t, hex) == n);
    match char::from_u32(x as u32) {
        Some(c) => {
            assert(x == digits_value(t.take(n), hex));
            Some((prefix + (k - start) + 1, c))
        },
        None => None,
    }
}

/// The characters at `i` spell the literal.
fn spells(v: &Vec<char>, lit: &str, i: usize) -> (r: bool)
    requires
        i <= v@.len(),
    ensures
        r == chars::starts_with(v@.skip(i as int), lit@),
        r ==> i + lit@.len() <= v@.len(),
{
    let p = text::to_chars(lit);
    let ghost rest = v@.skip(i as int);
    let len: usize = v.len();
    if p.len() > len - i {
        return false;
    }
    let mut k: usize = 0;
    while k < p.len()
        invariant
            i + p@.len() <= v@.len() == len,
            k <= p@.len(),
            p@ == lit@,
            rest == v@.skip(i as int),
            forall|m: int| 0 <= m < k ==> #[trigger] rest[m] == p@[m],
        decreases p@.len() - k,
    {
        assert(rest[k as int] == v@[i + k]);
        if v[i + k] != p[k] {
            assert(rest.take(p@.len() as int)[k as int] != p@[k as int]);
            return false;
        }
        k += 1;
    }
    assert(rest.take(p@.len() as int) =~= p@);
    true
}

fn entity(v: &Vec<char>, i: usize) -> (r: Option<(usize, char)>)
    requires
        i < v@.len(),
    ensures
        r is Some == entity_at(v@.skip(i as int)) is Some,
        r matches Some(e) ==> entity_at(v@.skip(i as int)) == Some((e.0 as int, e.1)) && 0 < e.0
            && i + e.0 <= v@.len(),
{
    proof {
        reveal_strlit("&lt;");
        reveal_strlit("&gt;");
        reveal_strlit("&quot;");
        reveal_strlit("&apos;");
        reveal_strlit("&nbsp;");
        reveal_strlit("&amp;");
        reveal_strlit("&#x");
        reveal_strlit("&#X");
        reveal_strlit("&#");
    }
    if spells(v, "&lt;", i) {
        Some((4, '<'))
    } else if spells(v, "&gt;", i) {
        Some((4, '>'))
    } else if spells(v, "&quot;", i) {
        Some((6, '"'))
    } else if spells(v, "&apos;", i) {
        Some((6, '\''))
    } else if spells(v, "&nbsp;", i) {
        Some((6, ' '))
    } else if spells(v, "&amp;", i) {
        Some((5, '&'))
    } else if spells(v, "&#x", i) {
        numbered(v, i, 3, true)
    } else if spells(v, "&#X", i) {
        numbered(v, i, 3, true)
    } else if spells(v, "&#", i) {
        numbered(v, i, 2, false)
    } else {
        None
    }
}

/// The text with its entities decoded, each once.
pub fn decode_entities(s: &str) -> (r: String)
    ensures
        r@ == spec_decode_entities(s@),
{
    let v = text::to_chars(s);
    let mut out = String::new();
    let mut i: usize = 0;
    assert(v@.skip(0) =~= v@);
    assert(out@ + spec_decode_entities(v@) =~= spec_decode_entities(v@));
    while i < v.len()
        invariant
            i <= v@.len(),
            v@ == s@,
            out@ + spec_decode_entities(v@.skip(i as int)) == spec_decode_entities(v@),
        decreases v@.len() - i,
    {
        let ghost rest = v@.skip(i as int);
        let ghost before = out@;
        match entity(&v, i) {
            Some(e) => {
                out.push(e.1);
                assert(rest.skip(e.0 as int) =~= v@.skip(i + e.0));
                assert(out@ + spec_decode_entities(v@.skip(i + e.0)) =~= before + (seq![e.1]
                    + spec_decode_entities(v@.skip(i + e.0))));
                i += e.0;
            },
            None => {
                let c: char = v[i];
                out.push(c);
                assert(rest[0] == c);
                assert(rest.skip(1) =~= v@.skip(i + 1));
                assert(out@ + spec_decode_entities(v@.skip(i + 1)) =~= before + (seq![c]
                    + spec_decode_entities(v@.skip(i + 1))));
                i += 1;
            },
        }
    }
    assert(v@.skip(i as int) =~= seq![]);
    assert(out@ + seq![] =~= out@);
    out
}

/// The first position of a literal at or after `from`.
fn find_lit(v: &Vec<char>, lit: &str, from: usize) -> (r: Option<usize>)
    requires
        from <= v@.len(),
    ensures
        r matches Some(i) ==> chars::find_from(v@, lit@, from as int) == Some(i as int) && from <= i
            && i + lit@.len() <= v.len(),
        r is None ==> chars::find_from(v@, lit@, from as int) is None,
{
    let p = text::to_chars(lit);
    text::find_chars(v, &p, from)
}

/// Where a tag of this name opens, at or after `from`.
fn find_opening(v: &Vec<char>, tag: &str, from: usize) -> (r: Option<usize>)
    requires
        from <= v@.len(),
        tag@.len() > 0,
    ensures
        r matches Some(i) ==> find_tag(v@, tag@, from as int) == Some(i as int) && from <= i
            && i + tag@.len() <= v.len(),
        r is None ==> find_tag(v@, tag@, from as int) is None,
{
    let n: usize = text::to_chars(tag).len();
    let mut i: usize = from;
    loop
        invariant
            from <= i <= v@.len(),
            n == tag@.len() > 0,
            find_tag(v@, tag@, i as int) == find_tag(v@, tag@, from as int),
        decreases v@.len() - i,
    {
        match find_lit(v, tag, i) {
            Some(p) => {
                let at: usize = p + n;
                if at >= v.len() || v[at] == '>' || v[at] == '/' || text::is_space(v[at]) {
                    return Some(p);
                }
                i = p + 1;
            },
            None => {
                return None;
            },
        }
    }
}

fn extract_title(html: &str) -> (r: Option<String>)
    ensures
        chars::opt(r) == spec_extract_title(html@),
{
    let h = text::to_chars(html);
    let low = text::lower(html);
    let l = text::to_chars(&low);
    proof {
        reveal_strlit(">");
    }
    match find_lit(&l, "<title", 0) {
        Some(start) => match find_lit(&l, ">", start) {
            Some(gt) => match find_lit(&l, "</title>", gt + 1) {
                Some(end) => {
                    let raw = text::slice(&h, gt + 1, end);
                    let d = decode_entities(&raw);
                    let t = squeeze(&d);
                    if text::is_empty(&t) {
                        None
                    } else {
                        Some(t)
                    }
                },
                None => None,
            },
            None => None,
        },
        None => None,
    }
}

fn attr_value(tag: &str, attr: &str) -> (r: Option<String>)
    ensures
        chars::opt(r) == spec_attr_value(tag@, attr@),
{
    let low = text::lower(tag);
    let key = text::cat(attr, "=");
    let v = text::to_chars(tag);
    let l = text::to_chars(&low);
    let k = text::to_chars(&key);
    match text::find_chars(&l, &k, 0) {
        Some(p) => {
            let at: usize = p + k.len();
            let ghost rest = v@.skip(at as int);
            if at == v.len() {
                return None;
            }
            let quote: char = v[at];
            assert(rest[0] == quote);
            if quote == '"' || quote == '\'' {
                let tail = text::slice(&v, at + 1, v.len());
                assert(tail@ =~= rest.skip(1));
                let mut q: Vec<char> = Vec::new();
                q.push(quote);
                assert(q@ =~= seq![quote]);
                let t = text::to_chars(&tail);
                match text::find_chars(&t, &q, 0) {
                    Some(end) => {
                        assert(t@.subrange(0, end as int) =~= t@.take(end as int));
                        Some(text::slice(&t, 0, end))
                    },
                    None => None,
                }
            } else {
                let mut i: usize = at;
                assert(rest.skip(0) =~= rest);
                while i < v.len() && !text::is_space(v[i]) && v[i] != '>'
                    invariant
                        at <= i <= v@.len(),
                        rest == v@.skip(at as int),
                        bare_len(rest) == (i - at) + bare_len(rest.skip(i - at)),
                    decreases v@.len() - i,
                {
                    assert(rest.skip(i - at)[0] == v@[i as int]);
                    assert(rest.skip(i - at).skip(1) =~= rest.skip(i - at + 1));
                    i += 1;
                }
                assert(bare_len(rest.skip(i - at)) == 0) by {
                    if i < v@.len() {
                        assert(rest.skip(i - at)[0] == v@[i as int]);
                    }
                }
                assert(v@.subrange(at as int, i as int) =~= rest.take(i - at));
                Some(text::slice(&v, at, i))
            }
        },
        None => None,
    }
}

fn extract_meta(html: &str) -> (r: Vec<(String, String)>)
    ensures
        ir::pairs_view(r@) == metas_from(html@, 0),
{
    let h = text::to_chars(html);
    let low = text::lower(html);
    let l = text::to_chars(&low);
    let mut out: Vec<(String, String)> = Vec::new();
    let mut at: usize = 0;
    assert(ir::pairs_view(out@) =~= seq![]);
    assert(ir::pairs_view(out@) + metas_from(html@, 0) =~= metas_from(html@, 0));
    loop
        invariant
            at <= l.len(),
            h@ == html@,
            l@ == chars::lower(html@),
            ir::pairs_view(out@) + metas_from(html@, at as int) == metas_from(html@, 0),
        decreases l@.len() - at,
    {
        proof {
            reveal_strlit(">");
        }
        let ghost before = ir::pairs_view(out@);
        match find_lit(&l, "<meta", at) {
            Some(start) => match find_lit(&l, ">", start) {
                Some(gt) => {
                    let tag = text::slice(&h, start, gt);
                    let name = match attr_value(&tag, "name") {
                        Some(n) => Some(n),
                        None => attr_value(&tag, "property"),
                    };
                    let content = attr_value(&tag, "content");
                    if let Some(n) = name {
                        if let Some(c) = content {
                            let ghost o0 = out@;
                            let pair = (text::lower(&n), decode_entities(&c));
                            out.push(pair);
                            assert(ir::pairs_view(out@) =~= ir::pairs_view(o0) + seq![
                                (pair.0@, pair.1@),
                            ]);
                        }
                    }
                    assert(ir::pairs_view(out@) =~= before + meta_pair(tag@));
                    at = gt + 1;
                    assert(ir::pairs_view(out@) + metas_from(html@, at as int) =~= before + (
                    meta_pair(tag@) + metas_from(html@, at as int)));
                },
                None => {
                    assert(before + seq![] =~= before);
                    return out;
                },
            },
            None => {
                assert(before + seq![] =~= before);
                return out;
            },
        }
    }
}

fn closer(best: Option<(usize, &'static str)>, at: Option<usize>, close: &'static str) -> (r: Option<
    (usize, &'static str),
>)
    ensures
        hidden_view(r) == nearer(
            hidden_view(best),
            match at {
                Some(p) => Some(p as int),
                None => None,
            },
            close@,
        ),
{
    match (best, at) {
        (Some(b), Some(p)) => if p < b.0 {
            Some((p, close))
        } else {
            best
        },
        (None, Some(p)) => Some((p, close)),
        (_, None) => best,
    }
}

spec fn hidden_view(b: Option<(usize, &'static str)>) -> Option<(int, Seq<char>)> {
    match b {
        Some(x) => Some((x.0 as int, x.1@)),
        None => None,
    }
}

/// The text without scripts, styles, the head and comments.
pub fn strip_non_prose(html: &str) -> (r: String)
    ensures
        r@ == prose_from(html@, 0),
{
    let h = text::to_chars(html);
    let low = text::lower(html);
    let l = text::to_chars(&low);
    let mut out = String::new();
    let mut i: usize = 0;
    assert(out@ + prose_from(html@, 0) =~= prose_from(html@, 0));
    while i < h.len()
        invariant
            i <= h.len(),
            h@ == html@,
            l@ == chars::lower(html@),
            out@ + prose_from(html@, i as int) == prose_from(html@, 0),
        decreases h@.len() - i,
    {
        proof {
            reveal_strlit("<script");
            reveal_strlit("<style");
            reveal_strlit("<head");
        }
        let a = closer(None, find_opening(&l, "<script", i), "</script>");
        let b = closer(a, find_opening(&l, "<style", i), "</style>");
        let c = closer(b, find_opening(&l, "<head", i), "</head>");
        let next = closer(c, find_lit(&l, "<!--", i), "-->");
        proof {
            lemma_next_hidden(l@, i as int);
        }
        let ghost before = out@;
        match next {
            Some(n) => {
                let piece = text::slice(&h, i, n.0);
                out.append(piece.as_str());
                let close = text::to_chars(n.1);
                match text::find_chars(&l, &close, n.0) {
                    Some(p) => {
                        i = p + close.len();
                        assert(out@ + prose_from(html@, i as int) =~= before + (piece@
                            + prose_from(html@, i as int)));
                    },
                    None => {
                        assert(out@ =~= before + (piece@ + seq![]));
                        return out;
                    },
                }
            },
            None => {
                let piece = text::slice(&h, i, h.len());
                assert(piece@ =~= h@.skip(i as int));
                out.append(piece.as_str());
                return out;
            },
        }
    }
    assert(out@ + seq![] =~= out@);
    out
}

fn add_metas(m: &mut Metadata, pairs: &Vec<(String, String)>)
    ensures
        final(m)@ == apply_metas(old(m)@, ir::pairs_view(pairs@)),
{
    let ghost v = ir::pairs_view(pairs@);
    let mut i: usize = 0;
    while i < pairs.len()
        invariant
            i <= pairs@.len(),
            v == ir::pairs_view(pairs@),
            m@ == apply_metas(old(m)@, v.take(i as int)),
        decreases pairs@.len() - i,
    {
        assert(v.take(i + 1).drop_last() =~= v.take(i as int));
        let k = &pairs[i].0;
        let x = &pairs[i].1;
        if text::eq(k, "author") {
            m.author = Some(x.clone());
        } else if text::eq(k, "description") || text::eq(k, "keywords") {
            m.set(k, x);
        }
        i += 1;
    }
    assert(v.take(v.len() as int) =~= v);
}

/// What an HTML text becomes, given its Markdown.
pub fn assemble(html: &str, markdown: Extracted<String>) -> (r: Result<Document, ConvertError>)
    ensures
        registry::outcome(r) == html_document(html@, text_view(markdown)),
{
    let mut doc = Document::new();
    if let Some(t) = extract_title(html) {
        doc = doc.with_title(t);
    }
    let metas = extract_meta(html);
    add_metas(&mut doc.metadata, &metas);
    match markdown {
        Extracted::Ready(m) => {
            let t = text::trim(&m);
            if text::is_empty(&t) {
                doc.warn(
                    Warning::new(WarningKind::NoTextLayer, "the HTML carried no extractable prose"),
                );
            } else {
                doc.push(Block::Raw { markdown: t });
            }
            Ok(doc)
        },
        Extracted::Failed(e) => Err(ConvertError::Malformed { format: "html", message: e }),
        Extracted::Panicked => Err(ConvertError::ConverterPanic { format: "html" }),
    }
}

pub(crate) fn accepts_html(probe: &Probe<'_>, info: &StreamInfo) -> (r: bool)
    ensures
        r == html_takes(probe@, info@),
{
    if !probe.looks_textual() {
        return false;
    }
    if info.is_mime("text/html") || info.is_ext("html") || info.is_ext("htm") || info.is_ext(
        "xhtml",
    ) {
        return true;
    }
    if info.mimetype.is_none() && info.extension.is_none() {
        let head = probe.leading_text(256);
        return text::starts_with(&head, "<!doctype html") || text::starts_with(&head, "<html");
    }
    false
}

/// Converts an HTML text with what the host makes of its prose.
pub(crate) fn convert_html<X: Extractor>(
    tools: &X,
    bytes: &[u8],
    info: &StreamInfo,
    cx: &mut ConvertCx<'_>,
) -> (r: Result<Document, ConvertError>)
    ensures
        *final(final(cx).budget) == *final(old(cx).budget),
        final(cx).start() == old(cx).start(),
        old(cx)@.grows_to(final(cx)@),
        html_converts(*tools, bytes@, info@, old(cx)@, final(cx)@, registry::outcome(r)),
{
    let html = decode_info(bytes, &info.charset);
    if let Err(e) = cx.budget().check_deadline() {
        return Err(e);
    }
    let cleaned = strip_non_prose(&html);
    let markdown = tools.markdown(&cleaned);
    assemble(&html, markdown)
}

impl<X: Extractor> Converter for HtmlConverter<X> {
    open spec fn named(&self) -> Seq<char> {
        "html"@
    }

    open spec fn ranked(&self) -> i32 {
        100
    }

    open spec fn takes(&self, probe: ProbeV, info: StreamInfoV) -> bool {
        html_takes(probe, info)
    }

    open spec fn converts(
        &self,
        bytes: Seq<u8>,
        info: StreamInfoV,
        pre: CxV,
        post: CxV,
        r: Result<DocumentV, ErrorV>,
    ) -> bool {
        html_converts(self.0, bytes, info, pre, post, r)
    }

    fn name(&self) -> (r: &'static str) {
        "html"
    }

    fn priority(&self) -> (r: i32) {
        PRIORITY_GENERIC
    }

    fn accepts(&self, probe: &Probe<'_>, info: &StreamInfo) -> (r: bool) {
        accepts_html(probe, info)
    }

    fn convert(&self, bytes: &[u8], info: &StreamInfo, cx: &mut ConvertCx<'_>) -> (r: Result<
        Document,
        ConvertError,
    >) {
        convert_html(&self.0, bytes, info, cx)
    }
}

/// A place found in what follows `k`, counted from the start.
spec fn shifted(o: Option<int>, k: int) -> Option<int> {
    match o {
        Some(p) => Some(p + k),
        None => None,
    }
}

proof fn lemma_find_shifted(s: Seq<char>, p: Seq<char>, k: int, i: int)
    requires
        0 <= k <= s.len(),
        0 <= i,
    ensures
        chars::find_from(s, p, k + i) == shifted(chars::find_from(s.skip(k), p, i), k),
    decreases s.len() - k - i + 1,
{
    let t = s.skip(k);
    if i + p.len() <= t.len() {
        assert(t.subrange(i, i + p.len()) =~= s.subrange(k + i, k + i + p.len()));
        lemma_find_shifted(s, p, k, i + 1);
    }
}

proof fn lemma_tag_shifted(s: Seq<char>, tag: Seq<char>, k: int, i: int)
    requires
        0 <= k <= s.len(),
        0 <= i,
    ensures
        find_tag(s, tag, k + i) == shifted(find_tag(s.skip(k), tag, i), k),
    decreases s.len() - k - i + 1,
{
    lemma_find_shifted(s, tag, k, i);
    chars::lemma_find_from(s.skip(k), tag, i);
    if let Some(p) = chars::find_from(s.skip(k), tag, i) {
        let n = tag.len() as int;
        assert(name_ends(s, p + k + n) == name_ends(s.skip(k), p + n));
        if !name_ends(s.skip(k), p + n) {
            lemma_tag_shifted(s, tag, k, p + 1);
        }
    }
}

/// The prose of what follows `k` does not depend on what stands before.
proof fn lemma_prose_shifted(html: Seq<char>, k: int, i: int)
    requires
        0 <= k <= html.len(),
        0 <= i,
    ensures
        prose_from(html, k + i) == prose_from(html.skip(k), i),
    decreases html.len() - k - i,
{
    let rest = html.skip(k);
    let low = chars::lower(html);
    assert(chars::lower(rest) =~= low.skip(k));
    if i < rest.len() {
        lemma_tag_shifted(low, "<script"@, k, i);
        lemma_tag_shifted(low, "<style"@, k, i);
        lemma_tag_shifted(low, "<head"@, k, i);
        lemma_find_shifted(low, "<!--"@, k, i);
        lemma_next_hidden(low.skip(k), i);
        match next_hidden(low.skip(k), i) {
            Some(h) => {
                assert(next_hidden(low, k + i) == Some((h.0 + k, h.1)));
                assert(html.subrange(k + i, k + h.0) =~= rest.subrange(i, h.0));
                lemma_find_shifted(low, h.1, k, h.0);
                chars::lemma_find_from(low.skip(k), h.1, h.0);
                if let Some(p) = chars::find_from(low.skip(k), h.1, h.0) {
                    lemma_prose_shifted(html, k, p + h.1.len());
                }
            },
            None => {
                assert(html.skip(k + i) =~= rest.skip(i));
            },
        }
    }
}

/// What a script, a style, a head or a comment says never reaches the prose: the
/// prose is what stands before the first of them, and the prose of what stands
/// behind its end. One that is not closed hides all the rest.
pub proof fn hidden_text_leaves_no_trace(html: Seq<char>)
    ensures
        match next_hidden(chars::lower(html), 0) {
            Some(h) => prose_from(html, 0) == html.take(h.0) + (match chars::find_from(
                chars::lower(html),
                h.1,
                h.0,
            ) {
                Some(p) => prose_from(html.skip(p + h.1.len()), 0),
                None => seq![],
            }),
            None => prose_from(html, 0) == html,
        },
{
    let low = chars::lower(html);
    lemma_next_hidden(low, 0);
    match next_hidden(low, 0) {
        Some(h) => {
            assert(html.subrange(0, h.0) =~= html.take(h.0));
            chars::lemma_find_from(low, h.1, h.0);
            if let Some(p) = chars::find_from(low, h.1, h.0) {
                lemma_prose_shifted(html, p + h.1.len(), 0);
            }
            if html.len() == 0 {
                assert(html.take(h.0) =~= seq![]);
                assert(low.len() == 0);
            }
        },
        None => {
            assert(html.skip(0) =~= html);
            if html.len() == 0 {
                assert(prose_from(html, 0) =~= html);
            }
        },
    }
}

} // verus!

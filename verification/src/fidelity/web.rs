//! What web pages keep.

use vstd::prelude::*;
use crate::chars;
use crate::converters;
use crate::converters::html;
use crate::fidelity;
use crate::fidelity::tables;

verus! {

/// A character as HTML writes it, markup characters as entities.
pub open spec fn written(c: char) -> Seq<char> {
    if c == '&' {
        "&amp;"@
    } else if c == '<' {
        "&lt;"@
    } else if c == '>' {
        "&gt;"@
    } else if c == '"' {
        "&quot;"@
    } else if c == '\'' {
        "&apos;"@
    } else {
        seq![c]
    }
}

/// A text as HTML writes it.
pub open spec fn all_written(s: Seq<char>) -> Seq<char>
    decreases s.len(),
{
    if s.len() == 0 {
        seq![]
    } else {
        written(s[0]) + all_written(s.skip(1))
    }
}

pub(crate) proof fn lemma_no_entity(s: Seq<char>)
    requires
        s.len() > 0,
        s[0] != '&',
    ensures
        html::entity_at(s) is None,
{
    lemma_ampersands(s);
}

/// Every entity begins with an ampersand.
proof fn lemma_ampersands(s: Seq<char>)
    ensures
        s.len() > 0 && s[0] != '&' ==> {
            &&& !chars::starts_with(s, "&lt;"@)
            &&& !chars::starts_with(s, "&gt;"@)
            &&& !chars::starts_with(s, "&quot;"@)
            &&& !chars::starts_with(s, "&apos;"@)
            &&& !chars::starts_with(s, "&nbsp;"@)
            &&& !chars::starts_with(s, "&amp;"@)
            &&& !chars::starts_with(s, "&#x"@)
            &&& !chars::starts_with(s, "&#X"@)
            &&& !chars::starts_with(s, "&#"@)
        },
{
    reveal_strlit("&lt;");
    reveal_strlit("&gt;");
    reveal_strlit("&quot;");
    reveal_strlit("&apos;");
    reveal_strlit("&nbsp;");
    reveal_strlit("&amp;");
    reveal_strlit("&#x");
    reveal_strlit("&#X");
    reveal_strlit("&#");
    lemma_first(s, "&lt;"@);
    lemma_first(s, "&gt;"@);
    lemma_first(s, "&quot;"@);
    lemma_first(s, "&apos;"@);
    lemma_first(s, "&nbsp;"@);
    lemma_first(s, "&amp;"@);
    lemma_first(s, "&#x"@);
    lemma_first(s, "&#X"@);
    lemma_first(s, "&#"@);
}

proof fn lemma_first(s: Seq<char>, p: Seq<char>)
    requires
        p.len() > 0,
    ensures
        chars::starts_with(s, p) ==> s.len() >= p.len() && s[0] == p[0],
        chars::starts_with(s, p) && p.len() > 1 ==> s[1] == p[1],
        chars::starts_with(s, p) && p.len() > 2 ==> s[2] == p[2],
{
    if chars::starts_with(s, p) {
        let t = s.take(p.len() as int);
        assert(t[0] == s[0]);
        if p.len() > 1 {
            assert(t[1] == s[1]);
        }
        if p.len() > 2 {
            assert(t[2] == s[2]);
        }
    }
}

/// What stands in front is what is decoded first.
proof fn lemma_in_front(e: Seq<char>, rest: Seq<char>)
    ensures
        chars::starts_with(e + rest, e),
        (e + rest).skip(e.len() as int) == rest,
{
    assert((e + rest).take(e.len() as int) =~= e);
    assert((e + rest).skip(e.len() as int) =~= rest);
}

#[verifier::rlimit(40)]
pub(crate) proof fn lemma_written(c: char, rest: Seq<char>)
    ensures
        html::spec_decode_entities(written(c) + rest) == seq![c] + html::spec_decode_entities(rest),
{
    let w = written(c);
    let s = w + rest;
    lemma_in_front(w, rest);
    reveal_strlit("&lt;");
    reveal_strlit("&gt;");
    reveal_strlit("&quot;");
    reveal_strlit("&apos;");
    reveal_strlit("&nbsp;");
    reveal_strlit("&amp;");
    lemma_first(s, "&lt;"@);
    lemma_first(s, "&gt;"@);
    lemma_first(s, "&quot;"@);
    lemma_first(s, "&apos;"@);
    lemma_first(s, "&nbsp;"@);
    lemma_first(s, "&amp;"@);
    if c == '&' {
        assert(s[1] == 'a' && s[2] == 'm');
        assert(html::entity_at(s) == Some((5int, '&')));
    } else if c == '<' {
        assert(html::entity_at(s) == Some((4int, '<')));
    } else if c == '>' {
        assert(s[1] == 'g');
        assert(html::entity_at(s) == Some((4int, '>')));
    } else if c == '"' {
        assert(s[1] == 'q');
        assert(html::entity_at(s) == Some((6int, '"')));
    } else if c == '\'' {
        assert(s[1] == 'a' && s[2] == 'p');
        assert(html::entity_at(s) == Some((6int, '\'')));
    } else {
        assert(s[0] == c);
        lemma_no_entity(s);
    }
}

/// Decoding reads back what was written with entities, whatever the text.
pub proof fn entities_read_back(s: Seq<char>)
    ensures
        html::spec_decode_entities(all_written(s)) == s,
    decreases s.len(),
{
    if s.len() > 0 {
        entities_read_back(s.skip(1));
        lemma_written(s[0], all_written(s.skip(1)));
        assert(seq![s[0]] + s.skip(1) =~= s);
    }
}

/// Text without an ampersand stays as it is, in front of anything.
pub proof fn plain_text_stays(a: Seq<char>, b: Seq<char>)
    requires
        !a.contains('&'),
    ensures
        html::spec_decode_entities(a + b) == a + html::spec_decode_entities(b),
    decreases a.len(),
{
    if a.len() == 0 {
        assert(a + b =~= b);
        assert(a + html::spec_decode_entities(b) =~= html::spec_decode_entities(b));
    } else {
        let c = a.skip(1);
        if c.contains('&') {
            let i = c.index_of('&');
            assert(a[i + 1] == '&');
        }
        plain_text_stays(c, b);
        assert((a + b).skip(1) =~= c + b);
        assert((a + b)[0] == a[0]);
        assert(a[0] != '&');
        lemma_no_entity(a + b);
        assert(seq![a[0]] + (c + html::spec_decode_entities(b)) =~= a + html::spec_decode_entities(
            b,
        ));
    }
}

proof fn lemma_digit_value(c: char)
    requires
        chars::is_digit(c),
    ensures
        html::digit_of(c, false) == Some((c as u32 - 0x30) as nat),
{
}

proof fn lemma_decimal_digits(d: Seq<char>, rest: Seq<char>)
    requires
        chars::all_digits(d),
        rest.len() > 0,
        rest[0] == ';',
    ensures
        html::digit_run(d + rest, false) == d.len(),
        html::digits_value(d, false) == chars::value(d),
    decreases d.len(),
{
    let s = d + rest;
    if d.len() == 0 {
        assert(s[0] == ';');
    } else {
        let e = d.skip(1);
        assert forall|i: int| 0 <= i < e.len() implies chars::is_digit(#[trigger] e[i]) by {
            assert(e[i] == d[i + 1]);
        }
        lemma_decimal_digits(e, rest);
        assert(s.skip(1) =~= e + rest);
        assert(chars::is_digit(d[0]));
        lemma_digit_value(d[0]);
        assert(s[0] == d[0]);
        lemma_decimal_value(d);
    }
}

proof fn lemma_decimal_value(d: Seq<char>)
    requires
        chars::all_digits(d),
    ensures
        html::digits_value(d, false) == chars::value(d),
    decreases d.len(),
{
    if d.len() > 0 {
        let e = d.drop_last();
        assert forall|i: int| 0 <= i < e.len() implies chars::is_digit(#[trigger] e[i]) by {
            assert(e[i] == d[i]);
        }
        lemma_decimal_value(e);
        assert(chars::is_digit(d[d.len() - 1]));
        lemma_digit_value(d[d.len() - 1]);
    }
}

/// A character written by its number is that character.
pub proof fn numbered_entities_name_their_character(n: nat, rest: Seq<char>)
    requires
        html::is_scalar(n),
    ensures
        html::spec_decode_entities("&#"@ + chars::decimal(n) + ";"@ + rest) == seq![n as char]
            + html::spec_decode_entities(rest),
{
    reveal_strlit("&#");
    reveal_strlit(";");
    reveal_strlit("&#x");
    reveal_strlit("&#X");
    reveal_strlit("&lt;");
    reveal_strlit("&gt;");
    reveal_strlit("&quot;");
    reveal_strlit("&apos;");
    reveal_strlit("&nbsp;");
    reveal_strlit("&amp;");
    let d = chars::decimal(n);
    tables::lemma_decimal(n);
    let s = "&#"@ + d + ";"@ + rest;
    lemma_first(s, "&lt;"@);
    lemma_first(s, "&gt;"@);
    lemma_first(s, "&quot;"@);
    lemma_first(s, "&apos;"@);
    lemma_first(s, "&nbsp;"@);
    lemma_first(s, "&amp;"@);
    lemma_first(s, "&#x"@);
    lemma_first(s, "&#X"@);
    assert(chars::is_digit(d[0]));
    assert(s[0] == '&' && s[1] == '#' && s[2] == d[0]);
    assert(s.take(2) =~= "&#"@);
    let t = s.skip(2);
    let back = ";"@ + rest;
    assert(t =~= d + back);
    assert(back[0] == ';');
    lemma_decimal_digits(d, back);
    assert(t.take(d.len() as int) =~= d);
    assert(t[d.len() as int] == ';');
    let k = 2 + d.len() + 1;
    assert(s.skip(k as int) =~= rest);
    assert(html::entity_at(s) == Some((k as int, n as char)));
}

pub(crate) proof fn lemma_find_at(s: Seq<char>, p: Seq<char>, i: int, k: int)
    requires
        0 <= i <= k,
        chars::matches_at(s, p, k),
        forall|j: int| i <= j < k ==> !chars::matches_at(s, p, j),
    ensures
        chars::find_from(s, p, i) == Some(k),
{
    chars::lemma_find_from(s, p, i);
    if let Some(q) = chars::find_from(s, p, i) {
        if q < k {
            assert(!chars::matches_at(s, p, q));
        }
    }
}

proof fn lemma_lower_concat(a: Seq<char>, b: Seq<char>)
    ensures
        chars::lower(a + b) == chars::lower(a) + chars::lower(b),
{
    assert(chars::lower(a + b) =~= chars::lower(a) + chars::lower(b));
}

/// Nothing that begins with `c` is found where there is no `c`.
pub(crate) proof fn lemma_no_match(s: Seq<char>, p: Seq<char>, c: char, j: int)
    requires
        p.len() > 0,
        p[0] == c,
        0 <= j < s.len(),
        s[j] != c,
    ensures
        !chars::matches_at(s, p, j),
{
    if chars::matches_at(s, p, j) {
        assert(s.subrange(j, j + p.len())[0] == s[j]);
    }
}

pub(crate) proof fn lemma_lower_keeps(s: Seq<char>, c: char)
    requires
        !s.contains(c),
        c == '<' || c == '>' || c == '=',
    ensures
        !chars::lower(s).contains(c),
{
    let l = chars::lower(s);
    if l.contains(c) {
        let i = l.index_of(c);
        assert(l[i] == chars::lower1(s[i]));
        lemma_lower1(s[i]);
        assert(s[i] == c);
    }
}

proof fn lemma_lower1(c: char)
    ensures
        chars::lower1(c) == '<' ==> c == '<',
        chars::lower1(c) == '>' ==> c == '>',
        chars::lower1(c) == '=' ==> c == '=',
{
}

/// A page's title is the text of its first title element.
#[verifier::rlimit(60)]
#[verifier::spinoff_prover]
pub proof fn pages_show_their_title(before: Seq<char>, title: Seq<char>, after: Seq<char>)
    requires
        !before.contains('<'),
        !title.contains('<'),
        !title.contains('&'),
        !chars::is_blank(title),
    ensures
        html::spec_extract_title(before + "<title>"@ + title + "</title>"@ + after) matches Some(t)
            && chars::words(t) == chars::words(title),
{
    reveal_strlit("<title>");
    reveal_strlit("<title");
    reveal_strlit(">");
    reveal_strlit("</title>");
    let s = before + "<title>"@ + title + "</title>"@ + after;
    let low = chars::lower(s);
    let n = before.len() as int;
    let gt = n + 6;
    let end = gt + 1 + title.len();
    assert(chars::lower("<title>"@) =~= "<title>"@);
    assert(chars::lower("</title>"@) =~= "</title>"@);
    assert(low =~= chars::lower(before) + "<title>"@ + chars::lower(title) + "</title>"@
        + chars::lower(after));
    lemma_lower_keeps(before, '<');
    lemma_lower_keeps(title, '<');
    assert(low.subrange(n, n + 6) =~= "<title"@);
    assert(chars::matches_at(low, "<title"@, n));
    assert forall|j: int| 0 <= j < n implies !chars::matches_at(low, "<title"@, j) by {
        assert(low[j] == chars::lower(before)[j]);
        lemma_no_match(low, "<title"@, '<', j);
    }
    lemma_find_at(low, "<title"@, 0, n);
    assert(low.subrange(gt, gt + 1) =~= ">"@);
    assert forall|j: int| n <= j < gt implies !chars::matches_at(low, ">"@, j) by {
        assert(low[j] == "<title>"@[j - n]);
        lemma_no_match(low, ">"@, '>', j);
    }
    lemma_find_at(low, ">"@, n, gt);
    assert(low.subrange(end, end + 8) =~= "</title>"@);
    assert forall|j: int| gt + 1 <= j < end implies !chars::matches_at(low, "</title>"@, j) by {
        assert(low[j] == chars::lower(title)[j - gt - 1]);
        lemma_no_match(low, "</title>"@, '<', j);
    }
    lemma_find_at(low, "</title>"@, gt + 1, end);
    assert(s.subrange(gt + 1, end) =~= title);
    let none = Seq::<char>::empty();
    plain_text_stays(title, none);
    assert(title + none =~= title);
    assert(html::spec_decode_entities(none) =~= none);
    assert(html::spec_decode_entities(title) == title);
    fidelity::lemma_squeeze_blank(title);
    converters::squeezing_is_idempotent(title);
}

/// A quoted attribute's value is what stands between its quotes, in whichever case its
/// name is written.
#[verifier::rlimit(40)]
pub proof fn attributes_are_read(
    before: Seq<char>,
    name: Seq<char>,
    quote: char,
    value: Seq<char>,
    after: Seq<char>,
)
    requires
        !before.contains('='),
        !name.contains('='),
        quote == '"' || quote == '\'',
        !value.contains(quote),
    ensures
        html::spec_attr_value(
            before + name + seq!['=', quote] + value + seq![quote] + after,
            chars::lower(name),
        ) == Some(value),
{
    reveal_strlit("=");
    assert("="@ =~= seq!['=']);
    let q = seq![quote];
    let tag = before + name + seq!['=', quote] + value + q + after;
    let low = chars::lower(tag);
    let attr = chars::lower(name);
    let p = attr + "="@;
    let n = before.len() as int;
    let m = name.len() as int;
    lemma_lower_keeps(before, '=');
    lemma_lower_keeps(name, '=');
    assert(chars::lower1('=') == '=');
    assert(low.subrange(n, n + m + 1) =~= p);
    assert(chars::matches_at(low, p, n));
    assert forall|j: int| 0 <= j < n implies !chars::matches_at(low, p, j) by {
        if chars::matches_at(low, p, j) {
            assert(low.subrange(j, j + m + 1)[m] == '=');
            assert(low[j + m] == '=');
            if j + m < n {
                assert(low[j + m] == chars::lower(before)[j + m]);
            } else {
                assert(low[j + m] == attr[j + m - n]);
            }
        }
    }
    lemma_find_at(low, p, 0, n);
    let rest = tag.skip(n + p.len());
    assert(rest =~= seq![quote] + value + q + after);
    assert(rest[0] == quote);
    let inner = rest.skip(1);
    assert(inner =~= value + q + after);
    let k = value.len() as int;
    assert(inner.subrange(k, k + 1) =~= q);
    assert(chars::matches_at(inner, q, k));
    assert forall|j: int| 0 <= j < k implies !chars::matches_at(inner, q, j) by {
        assert(inner[j] == value[j]);
        lemma_no_match(inner, q, quote, j);
    }
    lemma_find_at(inner, q, 0, k);
    assert(inner.take(k) =~= value);
}

/// Looking from behind `a` is looking in what stands behind it.
proof fn lemma_find_behind(a: Seq<char>, b: Seq<char>, p: Seq<char>, i: int)
    requires
        i >= 0,
    ensures
        chars::find_from(a + b, p, a.len() + i) == (match chars::find_from(b, p, i) {
            Some(k) => Some(a.len() + k),
            None => None,
        }),
{
    let s = a + b;
    let n = a.len() as int;
    chars::lemma_find_from(s, p, n + i);
    chars::lemma_find_from(b, p, i);
    assert forall|j: int| 0 <= j implies #[trigger] chars::matches_at(b, p, j)
        == chars::matches_at(s, p, n + j) by {
        if j + p.len() <= b.len() {
            assert(s.subrange(n + j, n + j + p.len()) =~= b.subrange(j, j + p.len()));
        }
    }
    match (chars::find_from(b, p, i), chars::find_from(s, p, n + i)) {
        (Some(k), Some(q)) => {
            assert(chars::matches_at(b, p, k));
            assert(chars::matches_at(b, p, q - n));
        },
        (Some(k), None) => {
            assert(chars::matches_at(b, p, k));
            assert(chars::matches_at(s, p, n + k));
        },
        (None, Some(q)) => {
            assert(chars::matches_at(s, p, q));
            assert(chars::matches_at(b, p, q - n));
        },
        (None, None) => {},
    }
}

proof fn lemma_metas_behind(a: Seq<char>, b: Seq<char>, i: int)
    requires
        i >= 0,
    ensures
        html::metas_from(a + b, a.len() + i) == html::metas_from(b, i),
    decreases b.len() - i,
{
    let s = a + b;
    let n = a.len() as int;
    lemma_lower_concat(a, b);
    let x = chars::lower(a);
    let y = chars::lower(b);
    lemma_find_behind(x, y, "<meta"@, i);
    reveal_strlit(">");
    reveal_strlit("<meta");
    chars::lemma_find_from(y, "<meta"@, i);
    if let Some(start) = chars::find_from(y, "<meta"@, i) {
        lemma_find_behind(x, y, ">"@, start);
        chars::lemma_find_from(y, ">"@, start);
        if let Some(gt) = chars::find_from(y, ">"@, start) {
            assert(s.subrange(n + start, n + gt) =~= b.subrange(start, gt));
            lemma_metas_behind(a, b, gt + 1);
        }
    }
}

/// A tag that gives a property.
pub open spec fn meta_tag(name: Seq<char>, content: Seq<char>) -> Seq<char> {
    "<meta name=\""@ + name + "\" content=\""@ + content + "\">"@
}

#[verifier::rlimit(60)]
#[verifier::spinoff_prover]
proof fn lemma_meta_pair(name: Seq<char>, content: Seq<char>)
    requires
        !name.contains('"'),
        !name.contains('='),
        !content.contains('"'),
    ensures
        ({
            let tag = meta_tag(name, content);
            html::meta_pair(tag.drop_last()) == seq![
                (chars::lower(name), html::spec_decode_entities(content)),
            ]
        }),
{
    reveal_strlit("<meta name=\"");
    reveal_strlit("\" content=\"");
    reveal_strlit("\">");
    reveal_strlit("name");
    reveal_strlit("content");
    reveal_strlit("=");
    let tag = meta_tag(name, content).drop_last();
    let head = seq!['<', 'm', 'e', 't', 'a', ' '];
    let rest = seq![' ', 'c', 'o', 'n', 't', 'e', 'n', 't', '=', '"'] + content + seq!['"'];
    assert("name"@ =~= seq!['n', 'a', 'm', 'e']);
    assert(tag =~= head + "name"@ + seq!['=', '"'] + name + seq!['"'] + rest);
    assert(chars::lower("name"@) =~= "name"@);
    attributes_are_read(head, "name"@, '"', name, rest);
    let p = "content"@ + "="@;
    let low = chars::lower(tag);
    let k = (14 + name.len()) as int;
    assert(p =~= seq!['c', 'o', 'n', 't', 'e', 'n', 't', '=']);
    assert(low.subrange(k, k + 8) =~= p);
    assert(chars::matches_at(low, p, k));
    lemma_lower_keeps(name, '=');
    assert forall|j: int| 0 <= j < k implies !chars::matches_at(low, p, j) by {
        if chars::matches_at(low, p, j) {
            let w = low.subrange(j, j + 8);
            assert(w[7] == low[j + 7] && w[7] == '=');
            assert(w[0] == low[j] && w[0] == 'c');
            if j + 7 < 12 {
                assert(j + 7 == 10);
                assert(low[3] == 't');
            } else if j + 7 < 12 + name.len() {
                assert(low[j + 7] == chars::lower(name)[j + 7 - 12]);
            } else {
                let z = j + 7 - 12 - name.len();
                assert(low[j + 7] == chars::lower1("\" content=\""@[z as int]));
            }
        }
    }
    lemma_find_at(low, p, 0, k);
    let inner = tag.skip(k + 8);
    assert(inner =~= seq!['"'] + content + seq!['"']);
    let more = inner.skip(1);
    assert(more =~= content + seq!['"']);
    let q = seq!['"'];
    let n = content.len() as int;
    assert(more.subrange(n, n + 1) =~= q);
    assert(chars::matches_at(more, q, n));
    assert forall|j: int| 0 <= j < n implies !chars::matches_at(more, q, j) by {
        assert(more[j] == content[j]);
        lemma_no_match(more, q, '"', j);
    }
    lemma_find_at(more, q, 0, n);
    assert(more.take(n) =~= content);
}

/// Each tag that gives a property is read, in the order of the page: its name in small
/// letters, its content with the entities decoded.
#[verifier::rlimit(60)]
#[verifier::spinoff_prover]
pub proof fn property_tags_are_read(
    before: Seq<char>,
    name: Seq<char>,
    content: Seq<char>,
    after: Seq<char>,
)
    requires
        !before.contains('<'),
        !name.contains('"'),
        !name.contains('='),
        !name.contains('>'),
        !content.contains('"'),
        !content.contains('>'),
    ensures
        html::metas_from(before + meta_tag(name, content) + after, 0) == seq![
            (chars::lower(name), html::spec_decode_entities(content)),
        ] + html::metas_from(after, 0),
{
    reveal_strlit("<meta name=\"");
    reveal_strlit("\" content=\"");
    reveal_strlit("\">");
    reveal_strlit("<meta");
    reveal_strlit(">");
    let tag = meta_tag(name, content);
    let s = before + tag + after;
    let low = chars::lower(s);
    let n = before.len() as int;
    let gt = n + tag.len() - 1;
    lemma_lower_keeps(before, '<');
    assert(low.subrange(n, n + 5) =~= "<meta"@);
    assert(chars::matches_at(low, "<meta"@, n));
    assert forall|j: int| 0 <= j < n implies !chars::matches_at(low, "<meta"@, j) by {
        assert(low[j] == chars::lower(before)[j]);
        lemma_no_match(low, "<meta"@, '<', j);
    }
    lemma_find_at(low, "<meta"@, 0, n);
    lemma_lower_keeps(name, '>');
    lemma_lower_keeps(content, '>');
    assert(s[gt] == '>');
    assert(low.subrange(gt, gt + 1) =~= ">"@);
    assert forall|j: int| n <= j < gt implies !chars::matches_at(low, ">"@, j) by {
        let i = j - n;
        let a = 12 + name.len();
        let b = a + 11;
        let c = b + content.len();
        if i < 12 {
            assert(low[j] == chars::lower1("<meta name=\""@[i]));
        } else if i < a {
            assert(low[j] == chars::lower(name)[i - 12]);
        } else if i < b {
            assert(low[j] == chars::lower1("\" content=\""@[i - a]));
        } else if i < c {
            assert(low[j] == chars::lower(content)[i - b]);
        } else {
            assert(low[j] == chars::lower1('"'));
        }
        lemma_no_match(low, ">"@, '>', j);
    }
    lemma_find_at(low, ">"@, n, gt);
    assert(s.subrange(n, gt) =~= tag.drop_last());
    lemma_meta_pair(name, content);
    lemma_metas_behind(before + tag, after, 0);
}

/// What may hide a stretch of a page: how it opens, and how it ends.
pub open spec fn hides(open: Seq<char>, close: Seq<char>) -> bool {
    ||| open == "<script>"@ && close == "</script>"@
    ||| open == "<style>"@ && close == "</style>"@
    ||| open == "<head>"@ && close == "</head>"@
    ||| open == "<!--"@ && close == "-->"@
}

proof fn lemma_tag_matches(low: Seq<char>, tag: Seq<char>, i: int)
    ensures
        html::find_tag(low, tag, i) matches Some(p) ==> i <= p && chars::matches_at(low, tag, p),
    decreases low.len() - i + 1,
{
    chars::lemma_find_from(low, tag, i);
    if let Some(p) = chars::find_from(low, tag, i) {
        if !html::name_ends(low, p + tag.len()) {
            lemma_tag_matches(low, tag, p + 1);
        }
    }
}

/// Where what opens is the first markup, it is what hides next.
proof fn lemma_hidden_at(low: Seq<char>, n: int, open: Seq<char>, close: Seq<char>)
    requires
        hides(open, close),
        0 <= n,
        chars::matches_at(low, open, n),
        forall|j: int| 0 <= j < n ==> low[j] != '<',
    ensures
        html::next_hidden(low, 0) == Some((n, close)),
{
    reveal_strlit("<script>");
    reveal_strlit("<style>");
    reveal_strlit("<head>");
    reveal_strlit("<!--");
    reveal_strlit("<script");
    reveal_strlit("<style");
    reveal_strlit("<head");
    let w = low.subrange(n, n + open.len());
    assert(w == open);
    assert(w[0] == low[n] && w[1] == low[n + 1] && w[2] == low[n + 2]);
    lemma_opening(low, n, "<script"@);
    lemma_opening(low, n, "<style"@);
    lemma_opening(low, n, "<head"@);
    lemma_opening(low, n, "<!--"@);
    lemma_tag_matches(low, "<script"@, 0);
    lemma_tag_matches(low, "<style"@, 0);
    lemma_tag_matches(low, "<head"@, 0);
    chars::lemma_find_from(low, "<!--"@, 0);
    assert("<script>"@ =~= "<script"@.push('>'));
    assert("<style>"@ =~= "<style"@.push('>'));
    assert("<head>"@ =~= "<head"@.push('>'));
    if open == "<script>"@ {
        lemma_named(low, n, "<script"@, open);
    } else if open == "<style>"@ {
        lemma_named(low, n, "<style"@, open);
    } else if open == "<head>"@ {
        lemma_named(low, n, "<head"@, open);
    } else {
        lemma_find_at(low, "<!--"@, 0, n);
    }
}

proof fn lemma_opening(low: Seq<char>, n: int, p: Seq<char>)
    requires
        0 <= n,
        forall|j: int| 0 <= j < n ==> low[j] != '<',
        p.len() > 2,
        p[0] == '<',
        n + 2 < low.len(),
    ensures
        forall|j: int| 0 <= j < n ==> !chars::matches_at(low, p, j),
        chars::matches_at(low, p, n) ==> low[n + 1] == p[1] && low[n + 2] == p[2],
{
    assert forall|j: int| 0 <= j < n implies !chars::matches_at(low, p, j) by {
        lemma_no_match(low, p, '<', j);
    }
    if chars::matches_at(low, p, n) {
        let w = low.subrange(n, n + p.len());
        assert(w[1] == low[n + 1] && w[2] == low[n + 2]);
    }
}

proof fn lemma_named(low: Seq<char>, n: int, tag: Seq<char>, open: Seq<char>)
    requires
        0 <= n,
        open == tag.push('>'),
        chars::matches_at(low, open, n),
        forall|j: int| 0 <= j < n ==> !chars::matches_at(low, tag, j),
    ensures
        html::find_tag(low, tag, 0) == Some(n),
{
    let w = low.subrange(n, n + open.len());
    assert(low.subrange(n, n + tag.len()) =~= tag) by {
        assert forall|i: int| 0 <= i < tag.len() implies low[n + i] == tag[i] by {
            assert(w[i] == low[n + i]);
        }
    }
    assert(w[tag.len() as int] == low[n + tag.len()]);
    lemma_find_at(low, tag, 0, n);
}

/// The text inside holds nothing that could end it.
pub open spec fn is_inside(text: Seq<char>, close: Seq<char>) -> bool {
    &&& close.len() > 0
    &&& forall|j: int| 0 <= j < text.len() ==> chars::lower1(#[trigger] text[j]) != close[0]
    &&& text.len() > 0 ==> text[0] != '>'
}

/// A script, a style, a head or a comment is cut out of the prose, and nothing else:
/// what stands before it stays as it is, and what stands behind it is read on.
#[verifier::rlimit(60)]
#[verifier::spinoff_prover]
pub proof fn prose_stands_around_what_is_hidden(
    before: Seq<char>,
    open: Seq<char>,
    text: Seq<char>,
    close: Seq<char>,
    after: Seq<char>,
)
    requires
        hides(open, close),
        !before.contains('<'),
        is_inside(text, close),
    ensures
        html::prose_from(before + open + text + close + after, 0) == before + html::prose_from(
            after,
            0,
        ),
{
    reveal_strlit("<script>");
    reveal_strlit("<style>");
    reveal_strlit("<head>");
    reveal_strlit("<!--");
    reveal_strlit("</script>");
    reveal_strlit("</style>");
    reveal_strlit("</head>");
    reveal_strlit("-->");
    let s = before + open + text + close + after;
    let low = chars::lower(s);
    let n = before.len() as int;
    let m = n + open.len();
    let end = m + text.len();
    assert(chars::lower(open) =~= open);
    assert(chars::lower(close) =~= close);
    lemma_lower_keeps(before, '<');
    assert(low.subrange(n, m as int) =~= chars::lower(open));
    assert(chars::matches_at(low, open, n));
    assert forall|j: int| 0 <= j < n implies low[j] != '<' by {
        assert(low[j] == chars::lower(before)[j]);
    }
    lemma_hidden_at(low, n, open, close);
    assert(low.subrange(end as int, (end + close.len()) as int) =~= chars::lower(close));
    assert(chars::matches_at(low, close, end as int));
    assert forall|j: int| n <= j < end implies !chars::matches_at(low, close, j) by {
        if j < m {
            assert(low[j] == chars::lower(open)[j - n]);
            if chars::matches_at(low, close, j) {
                let w = low.subrange(j, j + close.len());
                assert(w[0] == low[j] && w[1] == low[j + 1] && w[2] == low[j + 2]);
                if text.len() > 0 {
                    assert(low[m as int] == chars::lower1(text[0]));
                    lemma_lower1(text[0]);
                } else {
                    assert(low[m as int] == close[0]);
                    assert(low[m + 1] == close[1]);
                }
                if j + 1 < m {
                    assert(low[j + 1] == open[j + 1 - n]);
                }
                if j + 2 < m {
                    assert(low[j + 2] == open[j + 2 - n]);
                }
                if open == "<!--"@ {
                    assert(close == "-->"@);
                    assert(j == n + 2 || j == n + 3);
                    assert(false);
                } else {
                    assert(close[0] == '<' && close[1] == '/');
                    assert(j == n);
                    assert(open[1] != '/');
                    assert(false);
                }
            }
        } else {
            assert(low[j] == chars::lower1(text[j - m]));
            lemma_no_match(low, close, close[0], j);
        }
    }
    lemma_find_at(low, close, n, end as int);
    html::hidden_text_leaves_no_trace(s);
    assert(s.take(n) =~= before);
    assert(s.skip((end + close.len()) as int) =~= after);
}

/// Text without markup is prose as it stands.
pub proof fn plain_pages_are_prose(s: Seq<char>)
    requires
        !s.contains('<'),
    ensures
        html::prose_from(s, 0) == s,
{
    reveal_strlit("<script");
    reveal_strlit("<style");
    reveal_strlit("<head");
    reveal_strlit("<!--");
    let low = chars::lower(s);
    lemma_lower_keeps(s, '<');
    lemma_tag_matches(low, "<script"@, 0);
    lemma_tag_matches(low, "<style"@, 0);
    lemma_tag_matches(low, "<head"@, 0);
    chars::lemma_find_from(low, "<!--"@, 0);
    assert forall|p: Seq<char>, j: int| p.len() > 0 && p[0] == '<' implies !(
    #[trigger] chars::matches_at(low, p, j)) by {
        if chars::matches_at(low, p, j) {
            assert(low.subrange(j, j + p.len())[0] == low[j]);
            assert(low.contains('<'));
        }
    }
    html::hidden_text_leaves_no_trace(s);
}

} // verus!

//! What is known of an input before it is converted, and how its parts are named.

use vstd::prelude::*;
use crate::archive;
use crate::bytes;
use crate::chars;
use crate::converters;
use crate::converters::xml;
use crate::converters::xml::{Progress, RawAttrV};
use crate::detect;
use crate::fidelity;
use crate::fidelity::tables;
use crate::guarantees;
use crate::ir::BlockV;
use crate::stream_info;
use crate::stream_info::StreamInfoV;

verus! {

/// One of the characters that may part columns.
pub open spec fn may_part(c: char) -> bool {
    c == ',' || c == ';' || c == '\t' || c == '|'
}

/// Every line holds the character equally often, at least once.
pub open spec fn parts_evenly(lines: Seq<Seq<char>>, c: char, n: nat) -> bool {
    n > 0 && lines.len() > 0 && forall|i: int|
        0 <= i < lines.len() ==> converters::csv::occurrences(#[trigger] lines[i], c) == n
}

proof fn lemma_better(
    best: Option<(char, nat)>,
    lines: Seq<Seq<char>>,
    c: char,
    seen: Set<char>,
)
    requires
        best matches Some(b) ==> parts_evenly(lines, b.0, b.1) && seen.contains(b.0) && forall|
            d: char,
            n: nat,
        |
            seen.contains(d) && #[trigger] parts_evenly(lines, d, n) ==> n <= b.1,
        best is None ==> forall|d: char, n: nat|
            seen.contains(d) ==> !(#[trigger] parts_evenly(lines, d, n)),
    ensures
        ({
            let r = converters::csv::better(best, lines, c);
            let all = seen.insert(c);
            &&& r matches Some(b) ==> parts_evenly(lines, b.0, b.1) && all.contains(b.0) && forall|
                d: char,
                n: nat,
            |
                all.contains(d) && #[trigger] parts_evenly(lines, d, n) ==> n <= b.1
            &&& r is None ==> forall|d: char, n: nat|
                all.contains(d) ==> !(#[trigger] parts_evenly(lines, d, n))
        }),
{
    let r = converters::csv::better(best, lines, c);
    let all = seen.insert(c);
    if lines.len() > 0 {
        let n0 = converters::csv::occurrences(lines[0], c);
        assert forall|n: nat| #[trigger] parts_evenly(lines, c, n) implies n == n0
            && converters::csv::is_steady(lines, c) by {
            assert(converters::csv::occurrences(lines[0], c) == n);
        }
        if converters::csv::is_steady(lines, c) {
            assert(parts_evenly(lines, c, n0));
        }
    }
}

/// Columns are parted by the character that stands equally often in every line of the
/// sample and parts them into the most columns; where none does, none is named.
pub proof fn columns_are_parted_evenly(s: Seq<char>)
    ensures
        ({
            let lines = converters::csv::sample(s);
            match converters::csv::spec_sniff_delimiter(s) {
                Some(b) => may_part(b.0) && parts_evenly(lines, b.0, b.1) && forall|
                    d: char,
                    n: nat,
                |
                    may_part(d) && #[trigger] parts_evenly(lines, d, n) ==> n <= b.1,
                None => forall|d: char, n: nat|
                    may_part(d) ==> !(#[trigger] parts_evenly(lines, d, n)),
            }
        }),
{
    let l = converters::csv::sample(s);
    let none = Set::<char>::empty();
    lemma_better(None, l, ',', none);
    let a = converters::csv::better(None, l, ',');
    let s1 = none.insert(',');
    lemma_better(a, l, ';', s1);
    let b = converters::csv::better(a, l, ';');
    let s2 = s1.insert(';');
    lemma_better(b, l, '\t', s2);
    let c = converters::csv::better(b, l, '\t');
    let s3 = s2.insert('\t');
    lemma_better(c, l, '|', s3);
    let s4 = s3.insert('|');
    assert forall|d: char| may_part(d) implies s4.contains(d) by {}
    assert forall|d: char| s4.contains(d) implies may_part(d) by {}
}

/// The sample is the first five lines that say anything, or all where there are fewer.
pub proof fn samples_are_the_first_lines(s: Seq<char>)
    ensures
        ({
            let all = tables::filled(chars::lines(s));
            let n = if all.len() < 5 {
                all.len()
            } else {
                5
            };
            converters::csv::sample(s) == all.take(n as int)
        }),
{
    lemma_filled(chars::lines(s));
    let all = tables::filled(chars::lines(s));
    assert(all.take(all.len() as int) =~= all);
}

proof fn lemma_filled(lines: Seq<Seq<char>>)
    ensures
        converters::csv::nonblank(lines) == tables::filled(lines),
    decreases lines.len(),
{
    if lines.len() > 0 {
        lemma_filled(lines.drop_last());
    }
}

proof fn lemma_digits_len(d: Seq<char>, rest: Seq<char>)
    requires
        chars::all_digits(d),
        rest.len() > 0 ==> !chars::is_digit(rest[0]),
    ensures
        converters::csv::digits_len(d + rest) == d.len(),
        (d + rest).skip(d.len() as int) == rest,
    decreases d.len(),
{
    let s = d + rest;
    assert(s.skip(d.len() as int) =~= rest);
    if d.len() == 0 {
        assert(s =~= rest);
    } else {
        let e = d.skip(1);
        assert forall|i: int| 0 <= i < e.len() implies chars::is_digit(#[trigger] e[i]) by {
            assert(e[i] == d[i + 1]);
        }
        lemma_digits_len(e, rest);
        assert(s.skip(1) =~= e + rest);
        assert(chars::is_digit(d[0]));
        assert(s[0] == d[0]);
    }
}

/// A whole number or one with decimal places, with a sign or without, is a number.
pub proof fn numbers_are_numeric(sign: Seq<char>, n: nat, places: Seq<char>)
    requires
        sign == Seq::<char>::empty() || sign == seq!['-'] || sign == seq!['+'],
        chars::all_digits(places),
    ensures
        converters::csv::is_numeric(sign + chars::decimal(n)),
        converters::csv::is_numeric(sign + chars::decimal(n) + seq!['.'] + places),
{
    let d = chars::decimal(n);
    tables::lemma_decimal(n);
    assert(chars::is_digit(d[0]));
    let none = Seq::<char>::empty();
    lemma_digits_len(d, none);
    assert(d + none =~= d);
    lemma_signed(sign, d);
    let tail = seq!['.'] + places;
    let whole = d + tail;
    lemma_digits_len(d, tail);
    assert(tail.skip(1) =~= places);
    lemma_digits_len(places, none);
    assert(places + none =~= places);
    assert(places.skip(places.len() as int) =~= none);
    assert(sign + d + seq!['.'] + places =~= sign + whole);
    assert forall|i: int| 0 <= i < whole.len() implies !chars::is_space(#[trigger] whole[i]) by {
        if i < d.len() {
            assert(chars::is_digit(d[i]));
        } else if i > d.len() {
            assert(chars::is_digit(places[i - d.len() - 1]));
        }
    }
    assert forall|i: int| 0 <= i < d.len() implies !chars::is_space(#[trigger] d[i]) by {
        assert(chars::is_digit(d[i]));
    }
    lemma_signed(sign, whole);
}

proof fn lemma_signed(sign: Seq<char>, t: Seq<char>)
    requires
        sign == Seq::<char>::empty() || sign == seq!['-'] || sign == seq!['+'],
        t.len() > 0,
        chars::is_digit(t[0]),
    ensures
        converters::csv::strip_sign(sign + t) == t,
        (sign + t).len() > 0,
        !chars::is_space((sign + t)[0]),
        !chars::is_space(t.last()) ==> !chars::is_space((sign + t).last()),
        !chars::is_space(t.last()) ==> chars::trim(sign + t) == sign + t,
{
    let s = sign + t;
    if sign.len() == 0 {
        assert(s =~= t);
        assert(s[0] == t[0]);
    } else {
        assert(s.skip(1) =~= t);
        assert(s[0] == '-' || s[0] == '+');
    }
    assert(s.last() == t.last());
}

/// A type's parameters do not count, and neither does white space before them.
pub proof fn type_parameters_do_not_count(mime: Seq<char>, parameters: Seq<char>)
    requires
        !mime.contains(';'),
    ensures
        stream_info::spec_normalize_mime(mime + seq![';'] + parameters)
            == stream_info::spec_normalize_mime(mime),
        chars::trim(mime) == mime && chars::lower(mime) == mime
            ==> stream_info::spec_normalize_mime(mime) == mime,
{
    reveal_strlit(";");
    let p = ";"@;
    assert(p =~= seq![';']);
    let s = mime + p + parameters;
    let n = mime.len() as int;
    chars::lemma_find_from(s, p, 0);
    assert(s.subrange(n, n + 1) =~= p);
    assert(chars::matches_at(s, p, n));
    if let Some(k) = chars::find(s, p) {
        if k < n {
            assert(s.subrange(k, k + 1)[0] == s[k]);
            assert(mime[k] == ';');
        }
    }
    assert(s.take(n) =~= mime);
    assert(chars::split(s, p)[0] == mime);
    chars::lemma_find_from(mime, p, 0);
    if let Some(k) = chars::find(mime, p) {
        assert(mime.subrange(k, k + 1)[0] == mime[k]);
        assert(mime.contains(';'));
    }
    assert(chars::split(mime, p)[0] == mime);
    assert(mime + seq![';'] + parameters =~= s);
}

/// A dot before an extension does not count.
#[verifier::spinoff_prover]
pub proof fn leading_dots_do_not_count(ext: Seq<char>)
    requires
        ext.len() > 0,
        chars::trim(ext) == ext,
    ensures
        stream_info::spec_normalize_ext(seq!['.'] + ext) == stream_info::spec_normalize_ext(ext),
        ext[0] != '.' && chars::lower(ext) == ext ==> stream_info::spec_normalize_ext(ext) == ext,
{
    let s = seq!['.'] + ext;
    lemma_trimmed_ends(ext);
    assert(s[0] == '.');
    assert(s.last() == ext.last());
    assert(!chars::is_space('.'));
    assert(chars::trim_start(s) == s);
    assert(chars::trim_end(s) == s);
    assert(chars::trim(s) == s);
    assert(s.skip(1) =~= ext);
    assert(chars::trim_start_char(s, '.') == chars::trim_start_char(ext, '.'));
    if ext[0] != '.' {
        assert(chars::trim_start_char(ext, '.') == ext);
    }
}

proof fn lemma_trimmed_ends(s: Seq<char>)
    requires
        s.len() > 0,
        chars::trim(s) == s,
    ensures
        !chars::is_space(s.last()),
{
    let t = chars::trim_start(s);
    guarantees::lemma_trim_end(t);
    assert(chars::trim_end(t) == s);
}

/// A file's extension is what follows the last dot of its name, unless one is known.
pub proof fn extensions_follow_the_last_dot(info: StreamInfoV, stem: Seq<char>, ext: Seq<char>)
    requires
        !ext.contains('.'),
        ext.len() > 0,
    ensures
        ({
            let r = info.with_filename(stem + seq!['.'] + ext);
            &&& r.filename == Some(stem + seq!['.'] + ext)
            &&& info.extension is None ==> r.extension == Some(
                stream_info::spec_normalize_ext(ext),
            )
            &&& info.extension is Some ==> r.extension == info.extension
            &&& r.mimetype == info.mimetype && r.charset == info.charset && r.url == info.url
        }),
        !ext.contains('.') ==> info.with_filename(ext).extension == info.extension,
{
    reveal_strlit(".");
    let p = "."@;
    assert(p =~= seq!['.']);
    let s = stem + p + ext;
    assert(stem + seq!['.'] + ext =~= s);
    let n = stem.len() as int;
    lemma_rfind(s, p, s.len() - 1);
    assert(s.subrange(n, n + 1) =~= p);
    assert(chars::matches_at(s, p, n));
    match chars::rfind(s, p) {
        Some(k) => {
            if k > n {
                assert(s.subrange(k, k + 1)[0] == s[k]);
                assert(ext[k - n - 1] == '.');
            }
            assert(k == n);
            assert(s.skip(n + 1) =~= ext);
        },
        None => {},
    }
    lemma_rfind(ext, p, ext.len() - 1);
    if let Some(k) = chars::rfind(ext, p) {
        assert(ext.subrange(k, k + 1)[0] == ext[k]);
        assert(ext.contains('.'));
    }
}

proof fn lemma_rfind(s: Seq<char>, p: Seq<char>, i: int)
    ensures
        chars::rfind_from(s, p, i) matches Some(k) ==> 0 <= k <= i && chars::matches_at(s, p, k)
            && forall|j: int| k < j <= i ==> !chars::matches_at(s, p, j),
        chars::rfind_from(s, p, i) is None ==> forall|j: int|
            0 <= j <= i ==> !chars::matches_at(s, p, j),
    decreases i + 1,
{
    if i >= 0 && !chars::matches_at(s, p, i) {
        lemma_rfind(s, p, i - 1);
    }
}

/// Bytes with a zero among the first do not look like text, nor do bytes that are no
/// UTF-8 to their end.
pub proof fn binary_input_is_not_text(b: Seq<u8>, i: int)
    requires
        0 <= i < b.len(),
        i < stream_info::PROBE_BYTES,
        b[i] == 0 || (b.len() <= stream_info::PROBE_BYTES && !vstd::utf8::valid_utf8(b)),
    ensures
        !stream_info::spec_probe(b).looks_textual(),
{
    let p = stream_info::spec_probe(b);
    assert(p.head[i] == b[i]);
    if b[i] == 0 {
        assert(p.head.contains(0u8));
    } else {
        assert(b.take(b.len() as int) =~= b);
        assert(p.head =~= b);
    }
}

/// Content that begins as a PDF or an Outlook message does is known as one, whatever
/// follows.
pub proof fn content_is_known_by_its_start(rest: Seq<u8>)
    ensures
        detect::spec_sniff(seq![0x25u8, 0x50u8, 0x44u8, 0x46u8, 0x2du8] + rest) == Some(
            ("application/pdf"@, "pdf"@),
        ),
        detect::spec_sniff(
            seq![0xD0u8, 0xCFu8, 0x11u8, 0xE0u8, 0xA1u8, 0xB1u8, 0x1Au8, 0xE1u8] + rest,
        ) == Some(("application/vnd.ms-outlook"@, "msg"@)),
        detect::spec_sniff(seq![0x50u8, 0x4bu8, 0x03u8, 0x04u8] + rest) == Some(
            detect::zip_type(seq![0x50u8, 0x4bu8, 0x03u8, 0x04u8] + rest),
        ),
{
    let pdf = seq![0x25u8, 0x50u8, 0x44u8, 0x46u8, 0x2du8];
    let ole = seq![0xD0u8, 0xCFu8, 0x11u8, 0xE0u8, 0xA1u8, 0xB1u8, 0x1Au8, 0xE1u8];
    let zip = seq![0x50u8, 0x4bu8, 0x03u8, 0x04u8];
    lemma_magic(pdf, rest, pdf);
    lemma_magic(ole, rest, ole);
    lemma_magic(ole, rest, pdf);
    lemma_magic(zip, rest, zip);
    lemma_magic(zip, rest, pdf);
    lemma_magic(zip, rest, ole);
}

proof fn lemma_magic(magic: Seq<u8>, rest: Seq<u8>, other: Seq<u8>)
    requires
        0 < magic.len() <= 8,
        0 < other.len() <= 8,
    ensures
        other == magic ==> stream_info::spec_probe(magic + rest).starts_with(other),
        other[0] != magic[0] ==> !stream_info::spec_probe(magic + rest).starts_with(other),
{
    let b = magic + rest;
    let h = stream_info::spec_probe(b).head;
    assert(h.len() >= magic.len() && h[0] == b[0]);
    assert(b[0] == magic[0]);
    if other == magic {
        assert(h.take(other.len() as int) =~= other);
        assert(h.subrange(0, other.len() as int) =~= other);
    }
    if bytes::spec_starts_with(h, other) {
        assert(h.take(other.len() as int)[0] == h[0]);
    }
}

/// The member's name says nothing about its container.
pub open spec fn says_nothing(bytes: Seq<u8>, i: int) -> bool {
    match archive::archive_member(bytes, i) {
        Some(m) => detect::spec_hint(m.0) is Nothing,
        None => true,
    }
}

/// A container is known by its first member that belongs to an Office document, and is
/// a plain archive where no member says anything.
pub proof fn containers_are_known_by_their_members(bytes: Seq<u8>, i: int, k: int, epub: bool)
    requires
        0 <= i <= k <= archive::archive_count(bytes),
        forall|j: int| i <= j < k ==> #[trigger] says_nothing(bytes, j),
    ensures
        k == archive::archive_count(bytes) && !epub ==> detect::zip_type_from(bytes, i, epub) == (
            "application/zip"@,
            "zip"@,
        ),
        k == archive::archive_count(bytes) && epub ==> detect::zip_type_from(bytes, i, epub) == (
            "application/epub+zip"@,
            "epub"@,
        ),
        k < archive::archive_count(bytes) ==> (archive::archive_member(bytes, k) matches Some(m)
            ==> (chars::starts_with(m.0, "word/"@) ==> detect::zip_type_from(bytes, i, epub).1
            == "docx"@) && (chars::starts_with(m.0, "ppt/"@) ==> detect::zip_type_from(
            bytes,
            i,
            epub,
        ).1 == "pptx"@) && (chars::starts_with(m.0, "xl/"@) ==> detect::zip_type_from(
            bytes,
            i,
            epub,
        ).1 == "xlsx"@)),
    decreases k - i,
{
    if i < k {
        assert(says_nothing(bytes, i));
        containers_are_known_by_their_members(bytes, i + 1, k, epub);
    } else if k < archive::archive_count(bytes) {
        if let Some(m) = archive::archive_member(bytes, k) {
            lemma_hints(m.0);
        }
    }
}

proof fn lemma_hints(name: Seq<char>)
    ensures
        chars::starts_with(name, "word/"@) ==> detect::spec_hint(name) is Docx,
        chars::starts_with(name, "ppt/"@) ==> detect::spec_hint(name) is Pptx,
        chars::starts_with(name, "xl/"@) ==> detect::spec_hint(name) is Xlsx,
{
    reveal_strlit("word/");
    reveal_strlit("ppt/");
    reveal_strlit("xl/");
    reveal_strlit("[Content_Types].xml");
    reveal_strlit("mimetype");
    reveal_strlit("META-INF/container.xml");
    assert("[Content_Types].xml"@[0] == '[' && "mimetype"@[0] == 'm');
    lemma_first(name, "word/"@);
    lemma_first(name, "ppt/"@);
    lemma_first(name, "xl/"@);
    lemma_first(name, "META-INF/container.xml"@);
}

proof fn lemma_first(s: Seq<char>, p: Seq<char>)
    requires
        p.len() > 0,
    ensures
        chars::starts_with(s, p) ==> s.len() > 0 && s[0] == p[0],
{
    if chars::starts_with(s, p) {
        assert(s.take(p.len() as int)[0] == s[0]);
    }
}

/// A byte-order mark names the encoding; without one, valid UTF-8 is UTF-8.
pub proof fn marks_name_the_encoding(rest: Seq<u8>)
    ensures
        detect::spec_sniff_charset(seq![0xEFu8, 0xBBu8, 0xBFu8] + rest) == "utf-8"@,
        detect::spec_sniff_charset(seq![0xFFu8, 0xFEu8] + rest) == "utf-16le"@,
        detect::spec_sniff_charset(seq![0xFEu8, 0xFFu8] + rest) == "utf-16be"@,
        vstd::utf8::valid_utf8(rest) && (rest.len() == 0 || rest[0] < 0x80)
            ==> detect::spec_sniff_charset(rest) == "utf-8"@,
{
    let a = seq![0xEFu8, 0xBBu8, 0xBFu8];
    let b = seq![0xFFu8, 0xFEu8];
    let c = seq![0xFEu8, 0xFFu8];
    assert((a + rest).take(3) =~= a);
    assert((b + rest).take(2) =~= b);
    assert((c + rest).take(2) =~= c);
    lemma_first_byte(b + rest, a);
    lemma_first_byte(c + rest, a);
    lemma_first_byte(c + rest, b);
    lemma_first_byte(rest, a);
    lemma_first_byte(rest, b);
    lemma_first_byte(rest, c);
}

proof fn lemma_first_byte(s: Seq<u8>, p: Seq<u8>)
    requires
        p.len() > 0,
    ensures
        bytes::spec_starts_with(s, p) ==> s.len() > 0 && s[0] == p[0],
{
    if bytes::spec_starts_with(s, p) {
        assert(s.take(p.len() as int)[0] == s[0]);
    }
}

/// A type goes with itself, an unspecific one with any, and text with text.
pub proof fn like_types_go_together(a: Seq<char>, b: Seq<char>)
    ensures
        detect::spec_compatible(a, a),
        detect::spec_compatible("application/octet-stream"@, b),
        detect::spec_compatible(a, "application/octet-stream"@),
        detect::spec_compatible("text/"@ + a, "text/"@ + b),
{
    assert(("text/"@ + a).take("text/"@.len() as int) =~= "text/"@);
    assert(("text/"@ + b).take("text/"@.len() as int) =~= "text/"@);
}

/// An element's name is what follows its namespace prefix, and its path is its parent's
/// with its name behind it.
pub proof fn names_stand_behind_their_prefix(prefix: Seq<char>, name: Seq<char>)
    requires
        !name.contains(':'),
    ensures
        xml::after_colon(prefix + seq![':'] + name) == name,
        xml::after_colon(name) == name,
{
    reveal_strlit(":");
    let p = ":"@;
    assert(p =~= seq![':']);
    let s = prefix + p + name;
    assert(prefix + seq![':'] + name =~= s);
    let n = prefix.len() as int;
    lemma_rfind(s, p, s.len() - 1);
    assert(s.subrange(n, n + 1) =~= p);
    assert(chars::matches_at(s, p, n));
    if let Some(k) = chars::rfind(s, p) {
        if k > n {
            assert(s.subrange(k, k + 1)[0] == s[k]);
            assert(name[k - n - 1] == ':');
        }
        assert(s.skip(n + 1) =~= name);
    }
    lemma_rfind(name, p, name.len() - 1);
    if let Some(k) = chars::rfind(name, p) {
        assert(name.subrange(k, k + 1)[0] == name[k]);
        assert(name.contains(':'));
    }
}

/// An opened element stands under the elements that are open.
pub proof fn elements_stand_under_their_parents(
    p: Progress,
    name: Seq<u8>,
    attrs: Seq<RawAttrV>,
)
    ensures
        ({
            let q = xml::step(p, xml::EventV::Start(name, attrs));
            &&& q.stack.len() == p.stack.len() + 1
            &&& q.stack.drop_last() == p.stack
            &&& q.nodes == p.nodes
            &&& q.stack.last().name() == xml::spec_local_name(name)
            &&& p.stack.len() > 0 ==> q.stack.last().path.drop_last() == p.stack.last().path
            &&& p.stack.len() == 0 ==> q.stack.last().path.len() == 1
            &&& q.stack.last().own_text.len() == 0 && q.stack.last().text.len() == 0
        }),
{
    let q = xml::step(p, xml::EventV::Start(name, attrs));
    assert(q.stack.drop_last() =~= p.stack);
    let n = q.stack.last();
    if p.stack.len() > 0 {
        assert(n.path.drop_last() =~= p.stack.last().path);
    }
}

/// Each attribute is noted under its local name, in its order; one that is not well
/// formed is left out.
pub proof fn attributes_keep_their_values(raw: Seq<RawAttrV>, name: Seq<u8>, value: Seq<char>)
    ensures
        ({
            let a = xml::spec_attributes(raw);
            let b = xml::spec_attributes(raw.push(Some((name, Some(value)))));
            &&& b.len() == a.len() + 1
            &&& b.drop_last() == a
            &&& b.last().0 == xml::spec_local_name(name)
            &&& b.last().1 == value
        }),
        xml::spec_attributes(raw.push(None)) == xml::spec_attributes(raw),
{
    let a = xml::spec_attributes(raw);
    let more = raw.push(Some((name, Some(value))));
    assert(more.drop_last() =~= raw);
    let other = raw.push(None);
    assert(other.drop_last() =~= raw);
    assert(a.push((xml::spec_local_name(name), value)).drop_last() =~= a);
}

/// No line begins as a top heading does.
pub open spec fn has_no_heading(lines: Seq<Seq<char>>) -> bool {
    forall|i: int| 0 <= i < lines.len() ==> !chars::starts_with(#[trigger] lines[i], "# "@)
}

proof fn lemma_hash_line(before: Seq<Seq<char>>, title: Seq<char>, after: Seq<Seq<char>>)
    requires
        has_no_heading(before),
    ensures
        converters::text::hash_line(before + seq!["# "@ + title] + after) == Some("# "@ + title),
    decreases before.len(),
{
    let h = "# "@ + title;
    let all = before + seq![h] + after;
    if before.len() == 0 {
        assert(all[0] == h);
        assert(h.take("# "@.len() as int) =~= "# "@);
    } else {
        assert(all[0] == before[0]);
        assert(!chars::starts_with(before[0], "# "@));
        let fewer = before.skip(1);
        assert forall|i: int| 0 <= i < fewer.len() implies !chars::starts_with(
            #[trigger] fewer[i],
            "# "@,
        ) by {
            assert(fewer[i] == before[i + 1]);
        }
        lemma_hash_line(fewer, title, after);
        assert(all.skip(1) =~= fewer + seq![h] + after);
    }
}

/// The title of a Markdown text is its first top heading without the hash.
pub proof fn first_headings_are_titles(
    s: Seq<char>,
    before: Seq<Seq<char>>,
    title: Seq<char>,
    after: Seq<Seq<char>>,
)
    requires
        chars::lines(s) == before + seq!["# "@ + title] + after,
        has_no_heading(before),
        !chars::is_blank(title),
    ensures
        converters::text::text_document(s, true).title matches Some(t) && chars::words(t)
            == chars::words(title),
{
    lemma_hash_line(before, title, after);
    lemma_heading_text(title);
}

proof fn lemma_heading_text(title: Seq<char>)
    ensures
        chars::words(converters::text::heading_text("# "@ + title)) == chars::words(title),
        !chars::is_blank(title) ==> converters::text::heading_text("# "@ + title).len() > 0,
{
    reveal_strlit("# ");
    let h = "# "@ + title;
    assert(h[0] == '#');
    let t = h.skip(1);
    assert(t =~= seq![' '] + title);
    assert(t[0] == ' ');
    assert(chars::trim_start_char(h, '#') == chars::trim_start_char(t, '#'));
    assert(chars::trim_start_char(t, '#') == t);
    fidelity::lemma_words_trim(t);
    assert(t.skip(1) =~= title);
    assert(chars::words(t) == chars::words(title));
    fidelity::lemma_squeeze_blank(title);
    let r = chars::trim(t);
    if r.len() == 0 {
        assert(r =~= seq![]);
        assert(chars::words(r) =~= seq![]);
    }
}

/// The title of a notebook that names none is the first top heading of its text cells.
pub proof fn first_cell_headings_are_titles(
    blocks: Seq<BlockV>,
    markdown: Seq<char>,
    rest: Seq<BlockV>,
    before: Seq<Seq<char>>,
    title: Seq<char>,
    after: Seq<Seq<char>>,
)
    requires
        forall|i: int| 0 <= i < blocks.len() ==> !(#[trigger] blocks[i] is Raw),
        chars::lines(markdown) == before + seq!["# "@ + title] + after,
        has_no_heading(before),
    ensures
        converters::json::spec_first_heading(blocks + seq![BlockV::Raw { markdown }] + rest)
            matches Some(t) && chars::words(t) == chars::words(title),
    decreases blocks.len(),
{
    let r = BlockV::Raw { markdown };
    let all = blocks + seq![r] + rest;
    if blocks.len() == 0 {
        assert(all[0] == r);
        lemma_hash_line(before, title, after);
        lemma_heading_text(title);
    } else {
        assert(all[0] == blocks[0]);
        assert(!(blocks[0] is Raw));
        let fewer = blocks.skip(1);
        assert forall|i: int| 0 <= i < fewer.len() implies !(#[trigger] fewer[i] is Raw) by {
            assert(fewer[i] == blocks[i + 1]);
        }
        first_cell_headings_are_titles(fewer, markdown, rest, before, title, after);
        assert(all.skip(1) =~= fewer + seq![r] + rest);
    }
}

} // verus!

//! What a document's properties keep of what files say about themselves.

use vstd::prelude::*;
use crate::bytes;
use crate::chars;
use crate::converters;
use crate::converters::epub;
use crate::converters::html;
use crate::converters::media;
use crate::converters::media::AudioV;
use crate::converters::msg;
use crate::converters::msg::{MessageV, PropertyKind};
use crate::converters::pdf;
use crate::converters::pdf::PdfInfoV;
use crate::converters::xml::NodeV;
use crate::fidelity;
use crate::fidelity::office;
use crate::fidelity::tables;
use crate::guarantees;
use crate::ir;
use crate::ir::{BlockV, DocumentV, ImageRefV, MetadataV, SpanV};
use crate::stream_info::StreamInfoV;

verus! {

/// The text, where it says anything.
pub open spec fn said(o: Option<Seq<char>>) -> Option<Seq<char>> {
    match o {
        Some(v) => if chars::is_blank(v) {
            None
        } else {
            Some(v)
        },
        None => None,
    }
}

proof fn lemma_lookup_push(
    s: Seq<(Seq<char>, Seq<char>)>,
    pair: (Seq<char>, Seq<char>),
    key: Seq<char>,
)
    ensures
        ir::lookup(s.push(pair), key) == (match ir::lookup(s, key) {
            Some(v) => Some(v),
            None => if pair.0 == key {
                Some(pair.1)
            } else {
                None
            },
        }),
    decreases s.len(),
{
    let more = s.push(pair);
    if s.len() == 0 {
        assert(more[0] == pair);
        assert(more.skip(1) =~= seq![]);
        assert(ir::lookup(more.skip(1), key) is None);
    } else {
        assert(more[0] == s[0]);
        assert(more.skip(1) =~= s.skip(1).push(pair));
        lemma_lookup_push(s.skip(1), pair, key);
    }
}

pub(crate) proof fn lemma_with(m: MetadataV, key: Seq<char>, value: Seq<char>, other: Seq<char>)
    ensures
        ir::lookup(m.with(key, value).extra, other) == (match ir::lookup(m.extra, other) {
            Some(v) => Some(v),
            None => if key == other {
                said(Some(value))
            } else {
                None
            },
        }),
{
    lemma_lookup_push(m.extra, (key, value), other);
}

pub(crate) proof fn lemma_number_says(n: nat)
    ensures
        !chars::is_blank(chars::decimal(n)),
{
    let d = chars::decimal(n);
    tables::lemma_decimal(n);
    assert forall|i: int| 0 <= i < d.len() implies !chars::is_space(#[trigger] d[i]) && d[i]
        != 'x' by {
        assert(chars::is_digit(d[i]));
    }
    fidelity::lemma_strokes_all(d, 'x');
    if chars::is_blank(d) {
        fidelity::lemma_strokes_blank(d, 'x');
    }
}

spec fn numbered(n: Option<u32>) -> Option<Seq<char>> {
    match n {
        Some(n) => Some(chars::decimal(n as nat)),
        None => None,
    }
}

proof fn lemma_with_opt(m: MetadataV, key: Seq<char>, v: Option<Seq<char>>, other: Seq<char>)
    ensures
        ir::lookup(media::with_opt(m, key, v).extra, other) == (match ir::lookup(m.extra, other) {
            Some(x) => Some(x),
            None => if key == other {
                said(v)
            } else {
                None
            },
        }),
{
    if let Some(s) = v {
        lemma_with(m, key, s, other);
    }
}

/// What an audio file says about itself is noted, each fact under its own name; its
/// title is the document's and its artist the author.
pub proof fn audio_facts_are_noted(d: DocumentV, a: AudioV)
    requires
        d.metadata.extra.len() == 0,
    ensures
        ({
            let r = media::with_audio(d, a);
            let e = r.metadata.extra;
            &&& ir::lookup(e, "duration_seconds"@) == Some(chars::decimal(a.seconds as nat))
            &&& ir::lookup(e, "bitrate_kbps"@) == match a.bitrate {
                Some(n) => Some(chars::decimal(n as nat)),
                None => None,
            }
            &&& ir::lookup(e, "sample_rate_hz"@) == match a.sample_rate {
                Some(n) => Some(chars::decimal(n as nat)),
                None => None,
            }
            &&& ir::lookup(e, "track_title"@) == said(a.title)
            &&& ir::lookup(e, "album"@) == said(a.album)
            &&& ir::lookup(e, "recorded"@) == said(a.date)
            &&& ir::lookup(e, "comment"@) == said(a.comment)
            &&& r.metadata.author == match a.artist {
                Some(s) => Some(s),
                None => d.metadata.author,
            }
            &&& r.title == match a.title {
                Some(t) => Some(t),
                None => d.title,
            }
            &&& r.blocks == d.blocks
        }),
{
    reveal_strlit("duration_seconds");
    reveal_strlit("bitrate_kbps");
    reveal_strlit("sample_rate_hz");
    reveal_strlit("track_title");
    reveal_strlit("album");
    reveal_strlit("recorded");
    reveal_strlit("comment");
    assert("duration_seconds"@.len() == 16 && "bitrate_kbps"@.len() == 12 && "sample_rate_hz"@.len()
        == 14 && "track_title"@.len() == 11 && "album"@.len() == 5 && "recorded"@.len() == 8
        && "comment"@.len() == 7);
    lemma_number_says(a.seconds as nat);
    if let Some(n) = a.bitrate {
        lemma_number_says(n as nat);
    }
    if let Some(n) = a.sample_rate {
        lemma_number_says(n as nat);
    }
    lemma_audio(d.metadata, a, "duration_seconds"@);
    lemma_audio(d.metadata, a, "bitrate_kbps"@);
    lemma_audio(d.metadata, a, "sample_rate_hz"@);
    lemma_audio(d.metadata, a, "track_title"@);
    lemma_audio(d.metadata, a, "album"@);
    lemma_audio(d.metadata, a, "recorded"@);
    lemma_audio(d.metadata, a, "comment"@);
}

spec fn or_else(a: Option<Seq<char>>, b: Option<Seq<char>>) -> Option<Seq<char>> {
    match a {
        Some(x) => Some(x),
        None => b,
    }
}

spec fn if_named(key: Seq<char>, other: Seq<char>, v: Option<Seq<char>>) -> Option<Seq<char>> {
    if key == other {
        v
    } else {
        None
    }
}

proof fn lemma_audio(m: MetadataV, a: AudioV, key: Seq<char>)
    requires
        m.extra.len() == 0,
    ensures
        ir::lookup(media::audio_metadata(m, a).extra, key) == or_else(
            or_else(
                or_else(
                    or_else(
                        or_else(
                            or_else(
                                if_named(
                                    "duration_seconds"@,
                                    key,
                                    said(Some(chars::decimal(a.seconds as nat))),
                                ),
                                if_named("bitrate_kbps"@, key, said(numbered(a.bitrate))),
                            ),
                            if_named("sample_rate_hz"@, key, said(numbered(a.sample_rate))),
                        ),
                        if_named("track_title"@, key, said(a.title)),
                    ),
                    if_named("album"@, key, said(a.album)),
                ),
                if_named("recorded"@, key, said(a.date)),
            ),
            if_named("comment"@, key, said(a.comment)),
        ),
{
    let s = chars::decimal(a.seconds as nat);
    let p0 = m.with("duration_seconds"@, s);
    lemma_with(m, "duration_seconds"@, s, key);
    let p1 = media::with_opt(p0, "bitrate_kbps"@, media::opt_decimal(a.bitrate));
    lemma_with_opt(p0, "bitrate_kbps"@, media::opt_decimal(a.bitrate), key);
    let p2 = media::with_opt(p1, "sample_rate_hz"@, media::opt_decimal(a.sample_rate));
    lemma_with_opt(p1, "sample_rate_hz"@, media::opt_decimal(a.sample_rate), key);
    let p3 = media::with_opt(p2, "track_title"@, a.title);
    lemma_with_opt(p2, "track_title"@, a.title, key);
    let p4 = match a.artist {
        Some(s) => MetadataV { author: Some(s), ..p3 },
        None => p3,
    };
    let p5 = media::with_opt(p4, "album"@, a.album);
    lemma_with_opt(p4, "album"@, a.album, key);
    let p6 = media::with_opt(p5, "recorded"@, a.date);
    lemma_with_opt(p5, "recorded"@, a.date, key);
    lemma_with_opt(p6, "comment"@, a.comment, key);
}

/// The text of an information string.
pub open spec fn read_string(raw: Option<Seq<u8>>) -> Option<Seq<char>> {
    match raw {
        Some(v) => said(Some(pdf::spec_decode_pdf_string(v))),
        None => None,
    }
}

proof fn lemma_info_text(raw: Option<Seq<u8>>)
    ensures
        office::alike(pdf::info_text(raw), read_string(raw)),
        pdf::info_text(raw) matches Some(s) ==> !chars::is_blank(s),
{
    if let Some(v) = raw {
        let t = pdf::spec_decode_pdf_string(v);
        fidelity::lemma_squeeze_blank(t);
        converters::squeezing_is_idempotent(t);
        fidelity::lemma_squeeze_blank(converters::spec_squeeze(t));
    }
}

proof fn lemma_with_info(m: MetadataV, key: Seq<char>, raw: Option<Seq<u8>>, other: Seq<char>)
    ensures
        ir::lookup(pdf::with_info(m, key, raw).extra, other) == (match ir::lookup(m.extra, other) {
            Some(v) => Some(v),
            None => if key == other {
                pdf::info_text(raw)
            } else {
                None
            },
        }),
{
    lemma_info_text(raw);
    if let Some(v) = pdf::info_text(raw) {
        lemma_with(m, key, v, other);
    }
}

/// The strings of a PDF's information dictionary become the document's title, author
/// and dates; subject, keywords, producer and creator are noted under their names.
pub proof fn pdf_information_is_read(i: PdfInfoV)
    ensures
        ({
            let d = pdf::info_document(i);
            let e = d.metadata.extra;
            &&& office::alike(d.title, read_string(i.title))
            &&& office::alike(d.metadata.author, read_string(i.author))
            &&& office::alike(d.metadata.created, read_string(i.created))
            &&& office::alike(d.metadata.modified, read_string(i.modified))
            &&& office::alike(ir::lookup(e, "subject"@), read_string(i.subject))
            &&& office::alike(ir::lookup(e, "keywords"@), read_string(i.keywords))
            &&& office::alike(ir::lookup(e, "producer"@), read_string(i.producer))
            &&& office::alike(ir::lookup(e, "creator"@), read_string(i.creator))
        }),
{
    reveal_strlit("subject");
    reveal_strlit("keywords");
    reveal_strlit("producer");
    reveal_strlit("creator");
    assert("subject"@.len() == 7 && "keywords"@.len() == 8 && "producer"@.len() == 8
        && "creator"@.len() == 7);
    assert("subject"@[0] == 's' && "creator"@[0] == 'c' && "keywords"@[0] == 'k' && "producer"@[0]
        == 'p');
    lemma_info_text(i.title);
    lemma_info_text(i.author);
    lemma_info_text(i.created);
    lemma_info_text(i.modified);
    lemma_info_text(i.subject);
    lemma_info_text(i.keywords);
    lemma_info_text(i.producer);
    lemma_info_text(i.creator);
    lemma_info(i, "subject"@);
    lemma_info(i, "keywords"@);
    lemma_info(i, "producer"@);
    lemma_info(i, "creator"@);
}

proof fn lemma_info(i: PdfInfoV, key: Seq<char>)
    ensures
        ir::lookup(pdf::info_document(i).metadata.extra, key) == or_else(
            or_else(
                or_else(
                    if_named("subject"@, key, pdf::info_text(i.subject)),
                    if_named("keywords"@, key, pdf::info_text(i.keywords)),
                ),
                if_named("producer"@, key, pdf::info_text(i.producer)),
            ),
            if_named("creator"@, key, pdf::info_text(i.creator)),
        ),
{
    let m = MetadataV {
        author: pdf::info_text(i.author),
        created: pdf::info_text(i.created),
        modified: pdf::info_text(i.modified),
        ..ir::empty_metadata()
    };
    let m1 = pdf::with_info(m, "subject"@, i.subject);
    lemma_with_info(m, "subject"@, i.subject, key);
    let m2 = pdf::with_info(m1, "keywords"@, i.keywords);
    lemma_with_info(m1, "keywords"@, i.keywords, key);
    let m3 = pdf::with_info(m2, "producer"@, i.producer);
    lemma_with_info(m2, "producer"@, i.producer, key);
    lemma_with_info(m3, "creator"@, i.creator, key);
}

/// Text that 16-bit units hold one character each.
pub open spec fn is_narrow(t: Seq<char>) -> bool {
    forall|i: int| 0 <= i < t.len() ==> (#[trigger] t[i] as u32) < 0xd800
}

/// The text as 16-bit units, two bytes each.
pub open spec fn wide(t: Seq<char>, big_endian: bool) -> Seq<u8> {
    Seq::new(
        2 * t.len(),
        |k: int|
            if (k % 2 == 0) == big_endian {
                (t[k / 2] as u32 / 256) as u8
            } else {
                (t[k / 2] as u32 % 256) as u8
            },
    )
}

proof fn lemma_unit(c: char)
    requires
        (c as u32) < 0xd800,
    ensures
        c as u16 as char == c,
        !bytes::is_high_surrogate(c as u16),
        !bytes::is_low_surrogate(c as u16),
        ({
            let hi = (c as u32 / 256) as u8;
            let lo = (c as u32 % 256) as u8;
            (hi as u16 * 256 + lo as u16) as u16 == c as u16
        }),
{
    let n = c as u32;
    assert(n / 256 < 256);
    assert(n == (n / 256) * 256 + n % 256);
    assert(c as u16 as u32 == n);
}

proof fn lemma_units(t: Seq<char>)
    requires
        is_narrow(t),
    ensures
        bytes::utf16_text(Seq::new(t.len(), |i: int| t[i] as u16)) == t,
    decreases t.len(),
{
    let u = Seq::new(t.len(), |i: int| t[i] as u16);
    if t.len() == 0 {
        assert(bytes::utf16_text(u) =~= t);
    } else {
        let rest = t.skip(1);
        assert forall|i: int| 0 <= i < rest.len() implies (#[trigger] rest[i] as u32) < 0xd800 by {
            assert(rest[i] == t[i + 1]);
        }
        lemma_units(rest);
        assert((t[0] as u32) < 0xd800);
        lemma_unit(t[0]);
        assert(u.skip(1) =~= Seq::new(rest.len(), |i: int| rest[i] as u16));
        assert(u[0] as char == t[0]);
        assert(seq![t[0]] + rest =~= t);
    }
}

proof fn lemma_wide(t: Seq<char>, big_endian: bool)
    requires
        is_narrow(t),
    ensures
        bytes::utf16_text(bytes::units_of(wide(t, big_endian), big_endian)) == t,
{
    let b = wide(t, big_endian);
    let u = bytes::units_of(b, big_endian);
    assert(b.len() / 2 == t.len());
    assert forall|i: int| 0 <= i < t.len() implies u[i] == t[i] as u16 by {
        assert((t[i] as u32) < 0xd800);
        lemma_unit(t[i]);
        assert((2 * i) % 2 == 0 && (2 * i) / 2 == i && (2 * i + 1) % 2 == 1 && (2 * i + 1) / 2
            == i);
        let hi = (t[i] as u32 / 256) as u8;
        let lo = (t[i] as u32 % 256) as u8;
        if big_endian {
            assert(b[2 * i] == hi && b[2 * i + 1] == lo);
        } else {
            assert(b[2 * i] == lo && b[2 * i + 1] == hi);
        }
    }
    assert(u =~= Seq::new(t.len(), |i: int| t[i] as u16));
    lemma_units(t);
}

/// A PDF string reads back: UTF-16 behind its mark as the text it was written from, any
/// other byte by byte.
pub proof fn pdf_strings_read_back(t: Seq<char>, raw: Seq<u8>)
    ensures
        is_narrow(t) ==> pdf::spec_decode_pdf_string(seq![0xfeu8, 0xff] + wide(t, true)) == t,
        raw.len() < 2 || raw[0] != 0xfe || raw[1] != 0xff ==> pdf::spec_decode_pdf_string(raw).len()
            == raw.len() && forall|i: int|
            0 <= i < raw.len() ==> #[trigger] pdf::spec_decode_pdf_string(raw)[i] as int == raw[i],
{
    let mark = seq![0xfeu8, 0xff];
    if is_narrow(t) {
        lemma_wide(t, true);
        let w = mark + wide(t, true);
        assert(w.take(2) =~= mark);
        assert(w.subrange(0, 2) =~= mark);
        assert(w.skip(2) =~= wide(t, true));
    }
    if raw.len() < 2 || raw[0] != 0xfe || raw[1] != 0xff {
        if bytes::spec_starts_with(raw, mark) {
            assert(raw.take(2)[0] == raw[0] && raw.take(2)[1] == raw[1]);
        }
    }
}

/// A property written as UTF-16 reads back, but for zero characters at its end.
pub proof fn message_properties_read_back(t: Seq<char>)
    requires
        is_narrow(t),
        t.len() > 0 ==> t.last() != '\0',
    ensures
        msg::spec_decode_property(wide(t, false), PropertyKind::Utf16) == t,
{
    lemma_wide(t, false);
}

/// A property stream's name holds its tag, and behind it the kind of its value.
pub proof fn stream_names_hold_tag_and_kind(tag: Seq<char>)
    requires
        tag.len() == 4,
        chars::upper(tag) == tag,
    ensures
        msg::spec_parse_stream_name("__substg1.0_"@ + tag + "001F"@) == Some(
            (tag, PropertyKind::Utf16),
        ),
        msg::spec_parse_stream_name("__substg1.0_"@ + tag + "001E"@) == Some(
            (tag, PropertyKind::Ascii),
        ),
        msg::spec_parse_stream_name("__substg1.0_"@ + tag + "0102"@) == Some(
            (tag, PropertyKind::Binary),
        ),
{
    reveal_strlit("__substg1.0_");
    reveal_strlit("001F");
    reveal_strlit("001E");
    reveal_strlit("0102");
    assert("001F"@.len() == 4 && "001E"@.len() == 4 && "0102"@.len() == 4);
    assert("001F"@[3] == 'F' && "001E"@[3] == 'E' && "0102"@[1] == '1' && "001F"@[1] == '0'
        && "001E"@[1] == '0');
    lemma_stream_name(tag, "001F"@);
    lemma_stream_name(tag, "001E"@);
    lemma_stream_name(tag, "0102"@);
    assert(chars::upper("001F"@) =~= "001F"@);
    assert(chars::upper("001E"@) =~= "001E"@);
    assert(chars::upper("0102"@) =~= "0102"@);
}

proof fn lemma_stream_name(tag: Seq<char>, kind: Seq<char>)
    requires
        tag.len() == 4,
        kind.len() == 4,
        chars::upper(tag) == tag,
    ensures
        msg::spec_parse_stream_name("__substg1.0_"@ + tag + kind) == (match msg::kind_of(
            chars::upper(kind),
        ) {
            Some(k) => Some((tag, k)),
            None => None,
        }),
{
    reveal_strlit("__substg1.0_");
    let p = "__substg1.0_"@;
    let name = p + tag + kind;
    assert(name.take(p.len() as int) =~= p);
    let hex = name.skip(p.len() as int);
    assert(hex =~= tag + kind);
    assert(hex.take(4) =~= tag);
    assert(hex.subrange(4, 8) =~= kind);
}

/// A message's subject is the document's title, its sender the author and its date the
/// day it was made.
pub proof fn messages_name_their_sender(m: MessageV)
    ensures
        msg::message_document(m) matches Ok(d) ==> {
            &&& office::alike(d.title, said(m.get("subject"@)))
            &&& office::alike(d.metadata.author, m.get("from"@))
            &&& office::alike(d.metadata.created, m.get("date"@))
        },
{
    if let Some(s) = m.get("subject"@) {
        fidelity::lemma_squeeze_blank(s);
        converters::squeezing_is_idempotent(s);
        fidelity::lemma_squeeze_blank(converters::spec_squeeze(s));
    }
    if let Some(s) = m.get("from"@) {
        converters::squeezing_is_idempotent(s);
    }
    if let Some(s) = m.get("date"@) {
        converters::squeezing_is_idempotent(s);
    }
}

/// Attachments are named in one paragraph behind what came before, in their order and
/// parted by commas.
pub proof fn attachments_are_named(d: DocumentV, m: MessageV)
    requires
        m.attachments.len() > 0,
    ensures
        ({
            let r = msg::with_attachments(d, m);
            &&& r.blocks.len() == d.blocks.len() + 1
            &&& r.blocks.drop_last() == d.blocks
            &&& r.blocks.last() matches BlockV::Paragraph(t) && ir::plain(t) == "Attachments: "@
                + chars::join(m.attachments, seq![',', ' '])
        }),
{
    reveal_strlit("Attachments: ");
    reveal_strlit("Attachments");
    reveal_strlit(": ");
    reveal_strlit(", ");
    assert(", "@ =~= seq![',', ' ']);
    let r = msg::with_attachments(d, m);
    assert(r.blocks.drop_last() =~= d.blocks);
    let j = chars::join(m.attachments, ", "@);
    let label = SpanV::Strong(seq![SpanV::Text("Attachments"@)]);
    let rest = SpanV::Text(": "@ + j);
    let none = Seq::<SpanV>::empty();
    fidelity::lemma_plain_text("Attachments"@);
    fidelity::lemma_plain_push(none, label);
    fidelity::lemma_plain_push(none.push(label), rest);
    assert(none.push(label).push(rest) =~= seq![label, rest]);
    assert(ir::plain(none) =~= seq![]);
    assert("Attachments"@ + ": "@ =~= "Attachments: "@);
    assert(Seq::<char>::empty() + "Attachments"@ + (": "@ + j) =~= "Attachments: "@ + j);
}

/// A blank property adds nothing, an attachment its name, any other its value where it
/// is the first of its field.
pub proof fn properties_join_their_message(m: MessageV, field: Seq<char>, value: Seq<char>)
    ensures
        chars::is_blank(value) ==> m.with(field, value) == m,
        !chars::is_blank(value) && field == "attachment"@ ==> m.with(field, value).attachments.len()
            == m.attachments.len() + 1 && m.with(field, value).attachments.drop_last()
            == m.attachments && chars::words(m.with(field, value).attachments.last())
            == chars::words(value) && m.with(field, value).props == m.props,
        !chars::is_blank(value) && field != "attachment"@ ==> m.with(field, value).get(field)
            == match m.get(field) {
            Some(v) => Some(v),
            None => Some(value),
        },
{
    converters::squeezing_is_idempotent(value);
    lemma_lookup_push(m.props, (field, value), field);
    let q = converters::spec_squeeze(value);
    assert(m.attachments.push(q).drop_last() =~= m.attachments);
}

/// An image's fields are noted in the order they are read, a description without its
/// spaces as the name; a field that is not kept leaves nothing.
pub proof fn image_fields_are_kept(
    fields: Seq<(Option<Seq<char>>, Seq<char>)>,
    d: Seq<char>,
    value: Seq<char>,
)
    ensures
        ({
            let a = media::kept_fields(fields);
            let b = media::kept_fields(fields.push((Some(d), value)));
            if media::is_kept_tag(d) {
                &&& b.len() == a.len() + 1
                &&& b.drop_last() == a
                &&& b.last().0 == guarantees::swapped(d, ' ', seq![])
                &&& b.last().1 == value
            } else {
                b == a
            }
        }),
        media::kept_fields(fields.push((None, value))) == media::kept_fields(fields),
{
    reveal_strlit(" ");
    reveal_strlit("");
    assert(" "@ =~= seq![' ']);
    assert(""@ =~= seq![]);
    guarantees::lemma_replace_is_swapped(d, ' ', seq![]);
    let more = fields.push((Some(d), value));
    assert(more.drop_last() =~= fields);
    let other = fields.push((None::<Seq<char>>, value));
    assert(other.drop_last() =~= fields);
    let a = media::kept_fields(fields);
    assert(a.push((chars::replace(d, " "@, ""@), value)).drop_last() =~= a);
}

/// The artist is the author, the first date of an image the day it was made; any other
/// field is noted under its name.
pub proof fn image_fields_become_metadata(
    m: MetadataV,
    fs: Seq<(Seq<char>, Seq<char>)>,
    name: Seq<char>,
    value: Seq<char>,
)
    ensures
        ({
            let a = media::apply_fields(m, fs);
            let b = media::apply_fields(m, fs.push((name, value)));
            &&& name == "Artist"@ ==> b.author == Some(value) && b.created == a.created && b.extra
                == a.extra
            &&& name == "DateTimeOriginal"@ || name == "DateTime"@ ==> b.author == a.author
                && b.extra == a.extra && b.created == match a.created {
                Some(c) => Some(c),
                None => Some(value),
            }
            &&& name != "Artist"@ && name != "DateTimeOriginal"@ && name != "DateTime"@ ==> b.author
                == a.author && b.created == a.created && (if chars::is_blank(value) {
                b.extra == a.extra
            } else {
                b.extra.len() == a.extra.len() + 1 && b.extra.drop_last() == a.extra
                    && b.extra.last().0 == name && b.extra.last().1 == value
            })
        }),
{
    reveal_strlit("Artist");
    reveal_strlit("DateTimeOriginal");
    reveal_strlit("DateTime");
    assert("Artist"@.len() == 6 && "DateTimeOriginal"@.len() == 16 && "DateTime"@.len() == 8);
    let more = fs.push((name, value));
    assert(more.drop_last() =~= fs);
    assert(more.last() == (name, value));
    let a = media::apply_fields(m, fs);
    assert(a.extra.push((name, value)).drop_last() =~= a.extra);
}

/// An image becomes a picture with the file's name as its alternative text and the
/// file's address as its source, behind its description where it has one.
pub proof fn images_become_pictures(fs: Seq<(Seq<char>, Seq<char>)>, info: StreamInfoV)
    ensures
        ({
            let d = media::image_document(fs, info);
            &&& d.title == said(info.filename)
            &&& d.blocks.last() matches BlockV::Image(i) && i.alt == info.filename && i.caption
                is None && i.source == (match info.url {
                Some(u) => ImageRefV::Resource(u),
                None => ImageRefV::Absent,
            })
            &&& match ir::lookup(fs, "ImageDescription"@) {
                Some(s) => d.blocks.len() == 2 && (d.blocks[0] matches BlockV::Paragraph(t)
                    && ir::plain(t) == s),
                None => d.blocks.len() == 1,
            }
        }),
{
    if let Some(s) = ir::lookup(fs, "ImageDescription"@) {
        fidelity::lemma_plain_text(s);
    }
}

/// What the first element of this name says.
pub open spec fn first_named(nodes: Seq<NodeV>, name: Seq<char>) -> Option<Seq<char>>
    decreases nodes.len(),
{
    if nodes.len() == 0 {
        None
    } else if nodes[0].name() == name {
        Some(nodes[0].own_text)
    } else {
        first_named(nodes.skip(1), name)
    }
}

proof fn lemma_first_named(nodes: Seq<NodeV>, n: NodeV, name: Seq<char>)
    ensures
        first_named(nodes.push(n), name) == (match first_named(nodes, name) {
            Some(v) => Some(v),
            None => if n.name() == name {
                Some(n.own_text)
            } else {
                None
            },
        }),
    decreases nodes.len(),
{
    let more = nodes.push(n);
    if nodes.len() == 0 {
        assert(more[0] == n);
        assert(more.skip(1) =~= seq![]);
        assert(first_named(more.skip(1), name) is None);
    } else {
        assert(more[0] == nodes[0]);
        assert(more.skip(1) =~= nodes.skip(1).push(n));
        lemma_first_named(nodes.skip(1), n, name);
    }
}

pub open spec fn squeezed(o: Option<Seq<char>>) -> Option<Seq<char>> {
    match o {
        Some(v) => Some(converters::spec_squeeze(v)),
        None => None,
    }
}

pub(crate) proof fn lemma_package(nodes: Seq<NodeV>)
    ensures
        ({
            let p = epub::package_run(nodes);
            &&& p.title == squeezed(first_named(nodes, "title"@))
            &&& p.creator == squeezed(first_named(nodes, "creator"@))
            &&& p.language == squeezed(first_named(nodes, "language"@))
            &&& p.date == squeezed(first_named(nodes, "date"@))
        }),
    decreases nodes.len(),
{
    lemma_package_names();
    if nodes.len() > 0 {
        let before = nodes.drop_last();
        let n = nodes.last();
        lemma_package(before);
        assert(before.push(n) =~= nodes);
        lemma_first_named(before, n, "title"@);
        lemma_first_named(before, n, "creator"@);
        lemma_first_named(before, n, "language"@);
        lemma_first_named(before, n, "date"@);
    }
}

proof fn lemma_package_names()
    ensures
        "title"@ != "creator"@,
        "title"@ != "language"@,
        "title"@ != "date"@,
        "creator"@ != "language"@,
        "creator"@ != "date"@,
        "language"@ != "date"@,
        "item"@ != "title"@,
        "item"@ != "creator"@,
        "item"@ != "language"@,
        "item"@ != "date"@,
        "itemref"@ != "title"@,
        "itemref"@ != "creator"@,
        "itemref"@ != "language"@,
        "itemref"@ != "date"@,
        "itemref"@ != "item"@,
{
    reveal_strlit("title");
    reveal_strlit("creator");
    reveal_strlit("language");
    reveal_strlit("date");
    reveal_strlit("item");
    reveal_strlit("itemref");
    assert("title"@.len() == 5 && "creator"@.len() == 7 && "language"@.len() == 8 && "date"@.len()
        == 4 && "item"@.len() == 4 && "itemref"@.len() == 7);
    assert("date"@[0] == 'd' && "item"@[0] == 'i' && "creator"@[0] == 'c' && "itemref"@[0] == 'i');
}

/// A book's title, author, language and date are what the first elements named for them
/// say.
pub proof fn books_name_their_author(nodes: Seq<NodeV>)
    ensures
        ({
            let d = epub::with_package(epub::package_of(nodes));
            &&& office::alike(d.title, said(first_named(nodes, "title"@)))
            &&& office::alike(d.metadata.author, said(first_named(nodes, "creator"@)))
            &&& office::alike(d.metadata.language, said(first_named(nodes, "language"@)))
            &&& office::alike(d.metadata.created, said(first_named(nodes, "date"@)))
        }),
{
    lemma_package(nodes);
    lemma_squeezed_says(first_named(nodes, "title"@));
    lemma_squeezed_says(first_named(nodes, "creator"@));
    lemma_squeezed_says(first_named(nodes, "language"@));
    lemma_squeezed_says(first_named(nodes, "date"@));
}

proof fn lemma_squeezed_says(o: Option<Seq<char>>)
    ensures
        office::alike(epub::nonempty(squeezed(o)), said(o)),
        epub::nonempty(squeezed(o)) matches Some(t) ==> !chars::is_blank(t),
{
    if let Some(v) = o {
        fidelity::lemma_squeeze_blank(v);
        converters::squeezing_is_idempotent(v);
        fidelity::lemma_squeeze_blank(converters::spec_squeeze(v));
    }
}

/// Each reference of the spine joins it behind those before, and each item of the
/// manifest is noted with its address, unless it only serves navigation.
pub proof fn packages_list_their_parts(
    nodes: Seq<NodeV>,
    n: NodeV,
    id: Seq<char>,
    href: Seq<char>,
)
    ensures
        ({
            let a = epub::package_of(nodes);
            let b = epub::package_of(nodes.push(n));
            &&& n.name() == "itemref"@ && n.attr("idref"@) == Some(id) ==> b.spine.len()
                == a.spine.len() + 1 && b.spine.drop_last() == a.spine && b.spine.last() == id
                && b.manifest == a.manifest
            &&& n.name() == "item"@ && n.attr("id"@) == Some(id) && n.attr("href"@) == Some(href)
                && !epub::is_nav(n) ==> b.manifest.len() == a.manifest.len() + 1
                && b.manifest.drop_last() == a.manifest && b.manifest.last().0 == id
                && b.manifest.last().1 == href && b.spine == a.spine
            &&& n.name() != "item"@ && n.name() != "itemref"@ ==> b.spine == a.spine && b.manifest
                == a.manifest
        }),
{
    lemma_package_names();
    let more = nodes.push(n);
    assert(more.drop_last() =~= nodes);
    assert(more.last() == n);
    let a = epub::package_run(nodes);
    assert(a.spine.push(id).drop_last() =~= a.spine);
    assert(a.manifest.push((id, href)).drop_last() =~= a.manifest);
}

/// A name in a path, not one of the steps that stay or go back.
pub open spec fn is_step(s: Seq<char>) -> bool {
    s.len() > 0 && s != "."@ && s != ".."@
}

/// A path goes down by a name, back up by two dots, and stays where it is by one dot or
/// nothing.
pub proof fn paths_are_followed(path: Seq<Seq<char>>, name: Seq<char>)
    requires
        is_step(name),
    ensures
        epub::resolved(path.push(name)).len() == epub::resolved(path).len() + 1,
        epub::resolved(path.push(name)).drop_last() == epub::resolved(path),
        epub::resolved(path.push(name)).last() == name,
        epub::resolved(path.push(name).push(".."@)) == epub::resolved(path),
        epub::resolved(path.push("."@)) == epub::resolved(path),
        epub::resolved(path.push(seq![])) == epub::resolved(path),
{
    reveal_strlit(".");
    reveal_strlit("..");
    assert("."@.len() == 1 && ".."@.len() == 2);
    let t = epub::resolved(path);
    assert(path.push(name).drop_last() =~= path);
    assert(t.push(name).drop_last() =~= t);
    assert(path.push(name).push(".."@).drop_last() =~= path.push(name));
    assert(path.push("."@).drop_last() =~= path);
    assert(path.push(Seq::<char>::empty()).drop_last() =~= path);
}

/// A page's author is the last that it names; descriptions and keywords are noted under
/// their names, behind what was noted before.
pub proof fn page_properties_are_read(
    m: MetadataV,
    pairs: Seq<(Seq<char>, Seq<char>)>,
    name: Seq<char>,
    value: Seq<char>,
)
    ensures
        ({
            let a = html::apply_metas(m, pairs);
            let b = html::apply_metas(m, pairs.push((name, value)));
            &&& name == "author"@ ==> b.author == Some(value) && b.extra == a.extra
            &&& (name == "description"@ || name == "keywords"@) && !chars::is_blank(value)
                ==> b.author == a.author && b.extra.len() == a.extra.len() + 1
                && b.extra.drop_last() == a.extra && b.extra.last().0 == name && b.extra.last().1
                == value
            &&& name != "author"@ && name != "description"@ && name != "keywords"@ ==> b == a
        }),
{
    reveal_strlit("author");
    reveal_strlit("description");
    reveal_strlit("keywords");
    assert("author"@.len() == 6 && "description"@.len() == 11 && "keywords"@.len() == 8);
    let more = pairs.push((name, value));
    assert(more.drop_last() =~= pairs);
    assert(more.last() == (name, value));
    let a = html::apply_metas(m, pairs);
    assert(a.extra.push((name, value)).drop_last() =~= a.extra);
}

} // verus!

//! Zip archives: every member is converted in turn.

use vstd::prelude::*;
use crate::archive;
use crate::chars;
use crate::converters::builtin;
use crate::converters::builtin::convert_member;
use crate::converters::extract::Extractor;
use crate::converters::ooxml;
use crate::converters::ooxml::remaining_limit;
use crate::cx::{ConvertCx, CxV};
use crate::detect;
use crate::error;
use crate::error::{ConvertError, ErrorV, Warning, WarningKind, WarningV};
use crate::ir;
use crate::ir::{Block, BlockV, Document, DocumentV, sanitize_member_name};
use crate::registry;
use crate::registry::{Converter, PRIORITY_GENERIC};
use crate::stream_info;
use crate::stream_info::{Probe, ProbeV, StreamInfo, StreamInfoV};
use crate::text;

verus! {

/// Zip archives; the members may need what the host extracts.
pub struct ZipConverter<X>(pub X);

pub open spec fn zip_takes(probe: ProbeV, info: StreamInfoV) -> bool {
    probe.starts_with(detect::zip_magic()) && (info.is_ext("zip"@) || info.is_mime(
        "application/zip"@,
    ) || info.is_mime("application/x-zip-compressed"@))
}

/// How many more levels of containers may be entered.
pub open spec fn depth_left(c: CxV) -> int {
    if c.depth < c.limits.max_depth {
        c.limits.max_depth - c.depth
    } else {
        0
    }
}

pub open spec fn too_deep(max_depth: u32) -> DocumentV {
    ir::empty_document().warned(
        WarningV {
            kind: WarningKind::SkippedMember,
            message: "nested archive not expanded: max_depth ("@ + chars::decimal(max_depth as nat)
                + ") reached"@,
        },
    )
}

pub open spec fn skipped(safe: Seq<char>, why: Seq<char>) -> WarningV {
    WarningV { kind: WarningKind::SkippedMember, message: safe + ": "@ + why }
}

pub open spec fn too_many(max: u32) -> WarningV {
    WarningV {
        kind: WarningKind::Truncated,
        message: "stopped after "@ + chars::decimal(max as nat)
            + " members (max_embedded_documents)"@,
    }
}

pub open spec fn exhausted() -> WarningV {
    WarningV {
        kind: WarningKind::Truncated,
        message: "expansion budget exhausted; remaining members skipped"@,
    }
}

/// The document with a converted member; the member's warnings move up.
pub open spec fn with_member(d: DocumentV, safe: Seq<char>, inner: DocumentV) -> DocumentV {
    DocumentV { warnings: d.warnings + inner.warnings, ..d }.pushed(
        BlockV::Embedded {
            name: safe,
            doc: Box::new(DocumentV { warnings: seq![], ..inner }),
        },
    )
}

pub open spec fn finish_zip(d: DocumentV) -> DocumentV {
    if d.blocks.len() == 0 && d.warnings.len() == 0 {
        d.warned(
            WarningV {
                kind: WarningKind::NoTextLayer,
                message: "the archive contained no convertible members"@,
            },
        )
    } else {
        d
    }
}

/// Marks one way in which an attempt may end: the counters it leaves and its
/// outcome.
pub open spec fn ended(expanded: u64, embedded: u64, out: Result<DocumentV, ErrorV>) -> bool {
    true
}

/// The same level with other counters.
pub open spec fn counted(c: CxV, expanded: u64, embedded: u64) -> CxV {
    CxV { expanded, embedded, ..c }
}

pub open spec fn member_info(safe: Seq<char>) -> StreamInfoV {
    stream_info::empty_info().with_filename(safe)
}

/// What a member's conversion adds, where it does not end the archive's.
pub open spec fn member_added(
    d: DocumentV,
    safe: Seq<char>,
    out: Result<DocumentV, ErrorV>,
) -> DocumentV {
    match out {
        Ok(inner) => with_member(d, safe, inner),
        Err(e) => d.warned(skipped(safe, e.message())),
    }
}

/// What is to be done next about a member.
pub enum Verdict {
    /// Leave it out and go on.
    Skip,
    /// Leave it and all that follow out.
    Stop,
    Go,
}

/// A member before it is read: its name, declared size and whether it is
/// encrypted decide. With the verdict come the document and the context after
/// it.
pub open spec fn screened(m: (Seq<char>, u64, bool), d: DocumentV, c: CxV) -> (
    Verdict,
    DocumentV,
    CxV,
) {
    let safe = ir::spec_sanitize_member_name(m.0);
    let c1 = c.with_budget(c.budget().embed());
    if chars::ends_with(m.0, "/"@) {
        (Verdict::Skip, d, c)
    } else if m.2 {
        (Verdict::Skip, d.warned(skipped(safe, "encrypted"@)), c)
    } else if c.budget().embed_fails() {
        (Verdict::Stop, d.warned(too_many(c.limits.max_embedded_documents)), c1)
    } else if m.1 > c.limits.max_expanded_bytes {
        (
            Verdict::Skip,
            d.warned(
                skipped(
                    safe,
                    "declares "@ + chars::decimal(m.1 as nat) + " bytes, over max_expanded_bytes"@,
                ),
            ),
            c1,
        )
    } else {
        (Verdict::Go, d, c1)
    }
}

/// A member once it is read: what came of reading it decides.
pub open spec fn let_through(
    safe: Seq<char>,
    got: Option<Result<Seq<u8>, Seq<char>>>,
    d: DocumentV,
    c: CxV,
) -> (Verdict, DocumentV, CxV) {
    let max = c.limits.max_expanded_bytes;
    match got {
        None => (Verdict::Skip, d.warned(skipped(safe, "could not be decompressed"@)), c),
        Some(read) => if c.expanded >= max {
            (Verdict::Stop, d.warned(exhausted()), c)
        } else {
            match read {
                Err(_) => (Verdict::Skip, d.warned(skipped(safe, "read failed"@)), c),
                Ok(buf) => {
                    let n = buf.len() as u64;
                    let after = c.with_budget(c.budget().expand(n));
                    if buf.len() > max {
                        (
                            Verdict::Skip,
                            d.warned(skipped(safe, "expands past max_expanded_bytes"@)),
                            c,
                        )
                    } else if c.budget().expand_fails(n) {
                        (Verdict::Stop, d.warned(exhausted()), after)
                    } else {
                        (Verdict::Go, d, after)
                    }
                },
            }
        },
    }
}

/// What may become of the members from the `i`-th on. The time may run out
/// before each of them.
pub open spec fn members_from<X: Extractor>(
    tools: X,
    bytes: Seq<u8>,
    i: int,
    d: DocumentV,
    c: CxV,
    post: CxV,
    r: Result<DocumentV, ErrorV>,
) -> bool
    decreases depth_left(c), 0int, archive::archive_count(bytes) - i, 0int,
{
    if i < 0 || i >= archive::archive_count(bytes) {
        post == c && r == Ok::<DocumentV, ErrorV>(finish_zip(d))
    } else {
        (registry::late(c, r) && post == c) || match archive::archive_member(bytes, i) {
            None => members_from(tools, bytes, i + 1, d, c, post, r),
            Some(m) => {
                let s = screened(m, d, c);
                match s.0 {
                    Verdict::Skip => members_from(tools, bytes, i + 1, s.1, s.2, post, r),
                    Verdict::Stop => post == s.2 && r == Ok::<DocumentV, ErrorV>(finish_zip(s.1)),
                    Verdict::Go => member_from(
                        tools,
                        bytes,
                        i,
                        ir::spec_sanitize_member_name(m.0),
                        archive::archive_data(bytes, i, ooxml::read_limit(s.2)),
                        s.1,
                        s.2,
                        post,
                        r,
                    ),
                }
            },
        }
    }
}

/// What may become of the members from the `i`-th on, once it is read.
pub open spec fn member_from<X: Extractor>(
    tools: X,
    bytes: Seq<u8>,
    i: int,
    safe: Seq<char>,
    got: Option<Result<Seq<u8>, Seq<char>>>,
    d: DocumentV,
    c: CxV,
    post: CxV,
    r: Result<DocumentV, ErrorV>,
) -> bool
    decreases depth_left(c), 0int, archive::archive_count(bytes) - i - 1, 1int,
    when 0 <= i < archive::archive_count(bytes)
{
    let a = let_through(safe, got, d, c);
    match a.0 {
        Verdict::Skip => members_from(tools, bytes, i + 1, a.1, a.2, post, r),
        Verdict::Stop => post == a.2 && r == Ok::<DocumentV, ErrorV>(finish_zip(a.1)),
        Verdict::Go => c.depth < c.limits.max_depth && exists|
            x: u64,
            e: u64,
            out: Result<DocumentV, ErrorV>,
        |
            #[trigger] ended(x, e, out) && a.2.expanded <= x && a.2.embedded <= e
                && builtin::member_converts(
                tools,
                got->Some_0->Ok_0,
                member_info(safe),
                a.2.child(),
                counted(a.2.child(), x, e),
                out,
            ) && (if registry::is_limit(out) {
                post == counted(a.2, x, e) && r == out
            } else {
                members_from(
                    tools,
                    bytes,
                    i + 1,
                    member_added(d, safe, out),
                    counted(a.2, x, e),
                    post,
                    r,
                )
            }),
    }
}

/// What an archive may become.
pub open spec fn zip_converts<X: Extractor>(
    tools: X,
    bytes: Seq<u8>,
    pre: CxV,
    post: CxV,
    r: Result<DocumentV, ErrorV>,
) -> bool
    decreases depth_left(pre), 1int, 0int, 0int,
{
    match archive::archive_fault(bytes) {
        Some(f) => post == pre && r == Err::<DocumentV, ErrorV>(
            ErrorV::Malformed { format: "zip"@, message: f.1 },
        ),
        None => if pre.depth >= pre.limits.max_depth {
            post == pre && r == Ok::<DocumentV, ErrorV>(too_deep(pre.limits.max_depth))
        } else {
            members_from(tools, bytes, 0, ir::empty_document(), pre, post, r)
        },
    }
}

fn skip_warning(doc: &mut Document, safe: &str, why: &str)
    ensures
        final(doc)@ == old(doc)@.warned(skipped(safe@, why@)),
{
    let m = text::cat3(safe, ": ", why);
    doc.warn(Warning::new(WarningKind::SkippedMember, m));
}

fn finish(doc: Document) -> (r: Document)
    ensures
        r@ == finish_zip(doc@),
{
    let mut doc = doc;
    if doc.blocks.len() == 0 && doc.warnings.len() == 0 {
        doc.warn(
            Warning::new(
                WarningKind::NoTextLayer,
                "the archive contained no convertible members",
            ),
        );
    }
    doc
}

fn add_member(doc: &mut Document, safe: String, inner: Document)
    ensures
        final(doc)@ == with_member(old(doc)@, safe@, inner@),
{
    error::append_warnings(&mut doc.warnings, &inner.warnings);
    let mut bare = inner;
    bare.warnings = Vec::new();
    assert(error::warnings_view(bare.warnings@) =~= seq![]);
    doc.push(Block::Embedded { name: safe, doc: Box::new(bare) });
}

/// Decides on a member before it is read, by its name, declared size and
/// whether it is encrypted.
pub fn screen(m: &(String, u64, bool), doc: &mut Document, cx: &mut ConvertCx<'_>) -> (r: Verdict)
    ensures
        (r, final(doc)@, final(cx)@) == screened((m.0@, m.1, m.2), old(doc)@, old(cx)@),
        *final(final(cx).budget) == *final(old(cx).budget),
        final(cx).start() == old(cx).start(),
{
    if text::ends_with(&m.0, "/") {
        return Verdict::Skip;
    }
    let safe = sanitize_member_name(&m.0);
    if m.2 {
        skip_warning(doc, &safe, "encrypted");
        return Verdict::Skip;
    }
    if cx.charge_embedded().is_err() {
        let n = text::decimal(cx.limits().max_embedded_documents as u64);
        let w = text::cat3("stopped after ", &n, " members (max_embedded_documents)");
        doc.warn(Warning::new(WarningKind::Truncated, w));
        return Verdict::Stop;
    }
    if m.1 > cx.limits().max_expanded_bytes {
        let n = text::decimal(m.1);
        let w = text::cat3("declares ", &n, " bytes, over max_expanded_bytes");
        skip_warning(doc, &safe, &w);
        return Verdict::Skip;
    }
    Verdict::Go
}

/// Decides on a member once it is read, by what came of reading it.
pub fn let_in(
    safe: &str,
    got: &Option<Result<Vec<u8>, String>>,
    doc: &mut Document,
    cx: &mut ConvertCx<'_>,
) -> (r: Verdict)
    ensures
        (r, final(doc)@, final(cx)@) == let_through(
            safe@,
            archive::read_view(*got),
            old(doc)@,
            old(cx)@,
        ),
        *final(final(cx).budget) == *final(old(cx).budget),
        final(cx).start() == old(cx).start(),
{
    let max: u64 = cx.limits().max_expanded_bytes;
    match got {
        None => {
            skip_warning(doc, safe, "could not be decompressed");
            Verdict::Skip
        },
        Some(read) => {
            if cx.budget().expanded_bytes() >= max {
                exhausted_warning(doc);
                return Verdict::Stop;
            }
            match read {
                Err(_) => {
                    skip_warning(doc, safe, "read failed");
                    Verdict::Skip
                },
                Ok(buf) => {
                    if buf.len() as u64 > max {
                        skip_warning(doc, safe, "expands past max_expanded_bytes");
                        return Verdict::Skip;
                    }
                    if cx.charge_expanded(buf.len() as u64).is_err() {
                        exhausted_warning(doc);
                        return Verdict::Stop;
                    }
                    Verdict::Go
                },
            }
        },
    }
}

/// Takes the outcome of a member's conversion in. A limit that was exceeded is
/// handed back: it ends the archive's conversion too.
pub fn take_in(doc: &mut Document, safe: String, out: Result<Document, ConvertError>) -> (r: Option<
    ConvertError,
>)
    ensures
        r is Some == registry::is_limit(registry::outcome(out)),
        r matches Some(e) ==> registry::outcome(out) == Err::<DocumentV, ErrorV>(e@)
            && final(doc)@ == old(doc)@,
        r is None ==> final(doc)@ == member_added(old(doc)@, safe@, registry::outcome(out)),
{
    match out {
        Ok(inner) => {
            add_member(doc, safe, inner);
            None
        },
        Err(e) => {
            if let ConvertError::LimitExceeded { .. } = &e {
                return Some(e);
            }
            let why = e.to_string();
            skip_warning(doc, &safe, &why);
            None
        },
    }
}

fn exhausted_warning(doc: &mut Document)
    ensures
        final(doc)@ == old(doc)@.warned(exhausted()),
{
    doc.warn(
        Warning::new(
            WarningKind::Truncated,
            "expansion budget exhausted; remaining members skipped",
        ),
    );
}

/// What one member leaves to be done.
enum Next {
    Go,
    Stop,
    Fail(ConvertError),
}

spec fn next_holds<X: Extractor>(
    tools: X,
    bytes: Seq<u8>,
    i: int,
    next: Next,
    d0: DocumentV,
    c0: CxV,
    d: DocumentV,
    c: CxV,
) -> bool {
    match next {
        Next::Go => forall|p: CxV, q: Result<DocumentV, ErrorV>| #[trigger]
            members_from(tools, bytes, i + 1, d, c, p, q) ==> members_from(tools, bytes, i, d0, c0, p, q),
        Next::Stop => members_from(
            tools,
            bytes,
            i,
            d0,
            c0,
            c,
            Ok::<DocumentV, ErrorV>(finish_zip(d)),
        ),
        Next::Fail(e) => members_from(tools, bytes, i, d0, c0, c, Err::<DocumentV, ErrorV>(e@)),
    }
}

fn convert_one<X: Extractor>(
    tools: &X,
    zip: &mut archive::Archive,
    i: usize,
    doc: &mut Document,
    cx: &mut ConvertCx<'_>,
) -> (r: Next)
    requires
        i < archive::archive_count(archive::archive_bytes(*old(zip))),
        old(cx)@.depth < old(cx)@.limits.max_depth,
    ensures
        archive::archive_bytes(*final(zip)) == archive::archive_bytes(*old(zip)),
        *final(final(cx).budget) == *final(old(cx).budget),
        final(cx).start() == old(cx).start(),
        old(cx)@.grows_to(final(cx)@),
        next_holds(
            *tools,
            archive::archive_bytes(*old(zip)),
            i as int,
            r,
            old(doc)@,
            old(cx)@,
            final(doc)@,
            final(cx)@,
        ),
    decreases depth_left(old(cx)@), 1int,
{
    let ghost bytes = archive::archive_bytes(*zip);
    let ghost d0 = doc@;
    let ghost c0 = cx@;
    let m = match archive::member(zip, i) {
        Some(m) => m,
        None => {
            return Next::Go;
        },
    };
    match screen(&m, doc, cx) {
        Verdict::Skip => {
            return Next::Go;
        },
        Verdict::Stop => {
            return Next::Stop;
        },
        Verdict::Go => {},
    }
    let safe = sanitize_member_name(&m.0);
    let limit: u64 = remaining_limit(cx);
    let got = archive::read_member(zip, i, limit);
    let ghost g = archive::read_view(got);
    let ghost c1 = cx@;
    assert(forall|p: CxV, q: Result<DocumentV, ErrorV>| #[trigger]
        member_from(*tools, bytes, i as int, safe@, g, d0, c1, p, q) ==> members_from(
            *tools,
            bytes,
            i as int,
            d0,
            c0,
            p,
            q,
        ));
    match let_in(&safe, &got, doc, cx) {
        Verdict::Skip => {
            assert forall|p: CxV, q: Result<DocumentV, ErrorV>| #[trigger]
                members_from(*tools, bytes, i + 1, doc@, cx@, p, q) implies members_from(
                *tools,
                bytes,
                i as int,
                d0,
                c0,
                p,
                q,
            ) by {
                assert(member_from(*tools, bytes, i as int, safe@, g, d0, c1, p, q));
            }
            return Next::Go;
        },
        Verdict::Stop => {
            assert(member_from(
                *tools,
                bytes,
                i as int,
                safe@,
                g,
                d0,
                c1,
                cx@,
                Ok::<DocumentV, ErrorV>(finish_zip(doc@)),
            ));
            return Next::Stop;
        },
        Verdict::Go => {},
    }
    let buf = match got {
        Some(Ok(b)) => b,
        _ => {
            return Next::Go;
        },
    };
    let ghost c2 = cx@;
    let info = StreamInfo::new().with_filename(safe.as_str());
    let out = match cx.descend() {
        Ok(mut child) => convert_member(tools, buf.as_slice(), &info, &mut child),
        Err(e) => {
            return Next::Fail(e);
        },
    };
    let ghost c3 = cx@;
    let ghost o = registry::outcome(out);
    assert(c3 == counted(c2, c3.expanded, c3.embedded));
    assert(builtin::member_converts(
        *tools,
        buf@,
        member_info(safe@),
        c2.child(),
        counted(c2.child(), c3.expanded, c3.embedded),
        o,
    ));
    assert(ended(c3.expanded, c3.embedded, o));
    if let Some(e) = take_in(doc, safe, out) {
        assert(member_from(*tools, bytes, i as int, safe@, g, d0, c1, c3, o));
        return Next::Fail(e);
    }
    assert forall|p: CxV, q: Result<DocumentV, ErrorV>| #[trigger]
        members_from(*tools, bytes, i + 1, doc@, cx@, p, q) implies members_from(
        *tools,
        bytes,
        i as int,
        d0,
        c0,
        p,
        q,
    ) by {
        assert(member_from(*tools, bytes, i as int, safe@, g, d0, c1, p, q));
    }
    Next::Go
}

/// Converts an archive, member by member.
pub(crate) fn convert_zip<X: Extractor>(tools: &X, bytes: &[u8], cx: &mut ConvertCx<'_>) -> (r:
    Result<Document, ConvertError>)
    ensures
        *final(final(cx).budget) == *final(old(cx).budget),
        final(cx).start() == old(cx).start(),
        old(cx)@.grows_to(final(cx)@),
        zip_converts(*tools, bytes@, old(cx)@, final(cx)@, registry::outcome(r)),
    decreases depth_left(old(cx)@), 2int,
{
    let mut zip = match archive::open(bytes) {
        Ok(z) => z,
        Err(e) => {
            return Err(ConvertError::Malformed { format: "zip", message: e.1 });
        },
    };
    let max_depth: u32 = cx.limits().max_depth;
    if cx.depth() >= max_depth {
        let n = text::decimal(max_depth as u64);
        let w = text::cat3("nested archive not expanded: max_depth (", &n, ") reached");
        let mut doc = Document::new();
        doc.warn(Warning::new(WarningKind::SkippedMember, w));
        return Ok(doc);
    }
    let mut doc = Document::new();
    let n: usize = archive::count(&zip);
    let ghost pre = cx@;
    let mut i: usize = 0;
    while i < n
        invariant
            i <= n == archive::archive_count(bytes@),
            archive::archive_bytes(zip) == bytes@,
            archive::archive_fault(bytes@) is None,
            pre == old(cx)@,
            pre.depth < pre.limits.max_depth,
            *final(cx.budget) == *final(old(cx).budget),
            cx.start() == old(cx).start(),
            pre.grows_to(cx@),
            forall|p: CxV, q: Result<DocumentV, ErrorV>| #[trigger]
                members_from(*tools, bytes@, i as int, doc@, cx@, p, q) ==> zip_converts(*tools, bytes@, pre, p, q),
        decreases n - i,
    {
        if let Err(e) = cx.budget().check_deadline() {
            assert(members_from(
                *tools,
                bytes@,
                i as int,
                doc@,
                cx@,
                cx@,
                Err::<DocumentV, ErrorV>(e@),
            ));
            return Err(e);
        }
        match convert_one(tools, &mut zip, i, &mut doc, cx) {
            Next::Go => {},
            Next::Stop => {
                return Ok(finish(doc));
            },
            Next::Fail(e) => {
                return Err(e);
            },
        }
        i += 1;
    }
    let out = finish(doc);
    assert(members_from(*tools, bytes@, i as int, doc@, cx@, cx@, Ok::<DocumentV, ErrorV>(out@)));
    Ok(out)
}

pub(crate) fn accepts_zip(probe: &Probe<'_>, info: &StreamInfo) -> (r: bool)
    ensures
        r == zip_takes(probe@, info@),
{
    detect::has_zip_magic(probe) && (info.is_ext("zip") || info.is_mime("application/zip")
        || info.is_mime("application/x-zip-compressed"))
}

impl<X: Extractor> Converter for ZipConverter<X> {
    open spec fn named(&self) -> Seq<char> {
        "zip"@
    }

    open spec fn ranked(&self) -> i32 {
        110
    }

    open spec fn takes(&self, probe: ProbeV, info: StreamInfoV) -> bool {
        zip_takes(probe, info)
    }

    open spec fn converts(
        &self,
        bytes: Seq<u8>,
        info: StreamInfoV,
        pre: CxV,
        post: CxV,
        r: Result<DocumentV, ErrorV>,
    ) -> bool {
        zip_converts(self.0, bytes, pre, post, r)
    }

    fn name(&self) -> (r: &'static str) {
        "zip"
    }

    fn priority(&self) -> (r: i32) {
        PRIORITY_GENERIC + 10
    }

    fn accepts(&self, probe: &Probe<'_>, info: &StreamInfo) -> (r: bool) {
        accepts_zip(probe, info)
    }

    fn convert(&self, bytes: &[u8], info: &StreamInfo, cx: &mut ConvertCx<'_>) -> (r: Result<
        Document,
        ConvertError,
    >) {
        convert_zip(&self.0, bytes, cx)
    }
}

/// Every member's name among the blocks is safe to show.
pub open spec fn names_are_safe(bs: Seq<BlockV>) -> bool {
    forall|i: int|
        0 <= i < bs.len() ==> ((#[trigger] bs[i]) matches BlockV::Embedded { name, .. }
            ==> ir::is_safe_name(name))
}

/// However a member is named in the archive, the document gives it a name that
/// is safe to show.
pub proof fn member_names_are_safe<X: Extractor>(
    tools: X,
    bytes: Seq<u8>,
    i: int,
    d: DocumentV,
    c: CxV,
    post: CxV,
    doc: DocumentV,
)
    requires
        0 <= i,
        names_are_safe(d.blocks),
        members_from(tools, bytes, i, d, c, post, Ok::<DocumentV, ErrorV>(doc)),
    ensures
        names_are_safe(doc.blocks),
    decreases archive::archive_count(bytes) - i,
{
    let r = Ok::<DocumentV, ErrorV>(doc);
    if i < archive::archive_count(bytes) {
        if let Some((next, x)) = next_member(tools, bytes, i, d, c, post, r) {
            assert forall|k: int| 0 <= k < next.blocks.len() implies ((
            #[trigger] next.blocks[k]) matches BlockV::Embedded { name, .. } ==> ir::is_safe_name(
                name,
            )) by {
                if k < d.blocks.len() {
                    assert(next.blocks[k] == next.blocks.take(d.blocks.len() as int)[k]);
                    assert(next.blocks[k] == d.blocks[k]);
                } else {
                    ir::sanitized_names_are_safe(archive::archive_member(bytes, i)->Some_0.0);
                }
            }
            member_names_are_safe(tools, bytes, i + 1, next, x, post, doc);
        }
    }
}

pub open spec fn is_member(b: BlockV, name: Seq<char>) -> bool {
    b matches BlockV::Embedded { name: n, .. } && n == name
}

/// The warning says that the member was skipped, and why.
pub open spec fn is_skip(w: WarningV, name: Seq<char>) -> bool {
    w.kind == WarningKind::SkippedMember && chars::starts_with(w.message, name + ": "@)
}

/// The document holds a member of that name, or says that it was skipped.
pub open spec fn mentions(d: DocumentV, name: Seq<char>) -> bool {
    ||| exists|j: int| 0 <= j < d.blocks.len() && is_member(#[trigger] d.blocks[j], name)
    ||| exists|j: int| 0 <= j < d.warnings.len() && is_skip(#[trigger] d.warnings[j], name)
}

/// The document says that a limit ended the archive early.
pub open spec fn stopped(d: DocumentV, c: CxV) -> bool {
    d.warnings.contains(too_many(c.limits.max_embedded_documents)) || d.warnings.contains(
        exhausted(),
    )
}

/// `b` holds everything that `a` holds.
pub open spec fn grown(a: DocumentV, b: DocumentV) -> bool {
    &&& a.blocks.len() <= b.blocks.len()
    &&& a.warnings.len() <= b.warnings.len()
    &&& forall|j: int| 0 <= j < a.blocks.len() ==> #[trigger] b.blocks[j] == a.blocks[j]
    &&& forall|j: int| 0 <= j < a.warnings.len() ==> #[trigger] b.warnings[j] == a.warnings[j]
}

proof fn lemma_mentions_grow(a: DocumentV, b: DocumentV, name: Seq<char>)
    requires
        grown(a, b),
        mentions(a, name),
    ensures
        mentions(b, name),
{
    if exists|j: int| 0 <= j < a.blocks.len() && is_member(#[trigger] a.blocks[j], name) {
        let j = choose|j: int| 0 <= j < a.blocks.len() && is_member(#[trigger] a.blocks[j], name);
        assert(is_member(b.blocks[j], name));
    } else {
        let j = choose|j: int|
            0 <= j < a.warnings.len() && is_skip(#[trigger] a.warnings[j], name);
        assert(is_skip(b.warnings[j], name));
    }
}

/// No member is lost without a word: each that is not a directory is among the
/// embedded documents or in a warning that names it, unless a limit ended the
/// archive early, which a warning says. Every warning of a member's own moves
/// up, and none is ever dropped.
pub proof fn members_are_accounted_for<X: Extractor>(
    tools: X,
    bytes: Seq<u8>,
    i: int,
    d: DocumentV,
    c: CxV,
    post: CxV,
    doc: DocumentV,
)
    requires
        0 <= i,
        members_from(tools, bytes, i, d, c, post, Ok::<DocumentV, ErrorV>(doc)),
    ensures
        grown(d, doc),
        stopped(doc, c) || forall|k: int|
            i <= k < archive::archive_count(bytes) ==> ((#[trigger] archive::archive_member(
                bytes,
                k,
            )) matches Some(m) ==> chars::ends_with(m.0, "/"@) || mentions(
                doc,
                ir::spec_sanitize_member_name(m.0),
            )),
    decreases archive::archive_count(bytes) - i,
{
    let r = Ok::<DocumentV, ErrorV>(doc);
    if i < archive::archive_count(bytes) {
        if let Some((next, x)) = next_member(tools, bytes, i, d, c, post, r) {
            members_are_accounted_for(tools, bytes, i + 1, next, x, post, doc);
            if let Some(m) = archive::archive_member(bytes, i) {
                let safe = ir::spec_sanitize_member_name(m.0);
                if mentions(next, safe) {
                    lemma_mentions_grow(next, doc, safe);
                }
            }
        }
    }
}

/// What the `i`-th member leaves, where the archive goes on behind it.
proof fn next_member<X: Extractor>(
    tools: X,
    bytes: Seq<u8>,
    i: int,
    d: DocumentV,
    c: CxV,
    post: CxV,
    r: Result<DocumentV, ErrorV>,
) -> (o: Option<(DocumentV, CxV)>)
    requires
        0 <= i < archive::archive_count(bytes),
        members_from(tools, bytes, i, d, c, post, r),
        r is Ok,
    ensures
        o is None ==> r->Ok_0.blocks == d.blocks && grown(d, r->Ok_0) && stopped(r->Ok_0, c),
        o matches Some(n) ==> {
            &&& members_from(tools, bytes, i + 1, n.0, n.1, post, r)
            &&& n.1.limits == c.limits
            &&& grown(d, n.0)
            &&& archive::archive_member(bytes, i) matches Some(m) ==> chars::ends_with(m.0, "/"@)
                || mentions(n.0, ir::spec_sanitize_member_name(m.0))
            &&& c.embedded <= n.1.embedded
            &&& c.expanded <= n.1.expanded
            &&& n.0.blocks.len() <= d.blocks.len() + 1
            &&& n.0.blocks.len() > d.blocks.len() ==> !c.budget().embed_fails() && c.embedded
                < n.1.embedded && c.expanded < c.limits.max_expanded_bytes
            &&& n.0.blocks.take(d.blocks.len() as int) == d.blocks
            &&& n.0.blocks.len() >= d.blocks.len()
            &&& forall|k: int|
                d.blocks.len() <= k < n.0.blocks.len() ==> ((
                #[trigger] n.0.blocks[k]) matches BlockV::Embedded { name, .. }
                    && archive::archive_member(bytes, i) matches Some(m) && name
                    == ir::spec_sanitize_member_name(m.0))
        },
{
    let same = d.blocks.take(d.blocks.len() as int);
    assert(same =~= d.blocks);
    if let Some(m) = archive::archive_member(bytes, i) {
        let safe = ir::spec_sanitize_member_name(m.0);
        assert forall|why: Seq<char>| mentions(#[trigger] d.warned(skipped(safe, why)), safe) by {
            let w = skipped(safe, why);
            let p = safe + ": "@;
            assert(w.message.take(p.len() as int) =~= p);
            assert(is_skip(d.warned(w).warnings[d.warnings.len() as int], safe));
        }
        let a = d.warned(too_many(c.limits.max_embedded_documents));
        let b = d.warned(exhausted());
        assert(a.warnings[d.warnings.len() as int] == too_many(c.limits.max_embedded_documents));
        assert(b.warnings[d.warnings.len() as int] == exhausted());
    }
    match archive::archive_member(bytes, i) {
        None => Some((d, c)),
        Some(m) => {
            let safe = ir::spec_sanitize_member_name(m.0);
            let s = screened(m, d, c);
            match s.0 {
                Verdict::Skip => Some((s.1, s.2)),
                Verdict::Stop => None,
                Verdict::Go => {
                    let got = archive::archive_data(bytes, i, ooxml::read_limit(s.2));
                    assert(member_from(tools, bytes, i, safe, got, s.1, s.2, post, r));
                    let a = let_through(safe, got, s.1, s.2);
                    match a.0 {
                        Verdict::Skip => Some((a.1, a.2)),
                        Verdict::Stop => None,
                        Verdict::Go => {
                            let (x, e, out) = choose|
                                x: u64,
                                e: u64,
                                out: Result<DocumentV, ErrorV>,
                            |
                                #[trigger] ended(x, e, out) && a.2.expanded <= x && a.2.embedded
                                    <= e && builtin::member_converts(
                                    tools,
                                    got->Some_0->Ok_0,
                                    member_info(safe),
                                    a.2.child(),
                                    counted(a.2.child(), x, e),
                                    out,
                                ) && (if registry::is_limit(out) {
                                    post == counted(a.2, x, e) && r == out
                                } else {
                                    members_from(
                                        tools,
                                        bytes,
                                        i + 1,
                                        member_added(d, safe, out),
                                        counted(a.2, x, e),
                                        post,
                                        r,
                                    )
                                });
                            let next = member_added(d, safe, out);
                            if let Ok(inner) = out {
                                assert(is_member(next.blocks[d.blocks.len() as int], safe));
                            }
                            assert(next.blocks.take(d.blocks.len() as int) =~= d.blocks);
                            Some((next, counted(a.2, x, e)))
                        },
                    }
                },
            }
        },
    }
}

/// An archive never yields more embedded documents than the limit leaves,
/// however many members it has.
pub proof fn member_count_is_capped<X: Extractor>(
    tools: X,
    bytes: Seq<u8>,
    i: int,
    d: DocumentV,
    c: CxV,
    post: CxV,
    doc: DocumentV,
)
    requires
        0 <= i,
        c.embedded <= c.limits.max_embedded_documents,
        members_from(tools, bytes, i, d, c, post, Ok::<DocumentV, ErrorV>(doc)),
    ensures
        doc.blocks.len() + c.embedded <= d.blocks.len() + c.limits.max_embedded_documents,
    decreases archive::archive_count(bytes) - i,
{
    let r = Ok::<DocumentV, ErrorV>(doc);
    if i < archive::archive_count(bytes) {
        if let Some((next, x)) = next_member(tools, bytes, i, d, c, post, r) {
            if x.embedded <= x.limits.max_embedded_documents {
                member_count_is_capped(tools, bytes, i + 1, next, x, post, doc);
            } else {
                spent_budgets_admit_no_member(tools, bytes, i + 1, next, x, post, doc);
            }
        }
    }
}

/// Once the bytes or the members of the conversion are used up, by this
/// archive or by any other in the same tree, no member is taken in.
pub proof fn spent_budgets_admit_no_member<X: Extractor>(
    tools: X,
    bytes: Seq<u8>,
    i: int,
    d: DocumentV,
    c: CxV,
    post: CxV,
    doc: DocumentV,
)
    requires
        0 <= i,
        c.embedded >= c.limits.max_embedded_documents || c.expanded
            >= c.limits.max_expanded_bytes,
        members_from(tools, bytes, i, d, c, post, Ok::<DocumentV, ErrorV>(doc)),
    ensures
        doc.blocks == d.blocks,
    decreases archive::archive_count(bytes) - i,
{
    let r = Ok::<DocumentV, ErrorV>(doc);
    if i < archive::archive_count(bytes) {
        if let Some((next, x)) = next_member(tools, bytes, i, d, c, post, r) {
            spent_budgets_admit_no_member(tools, bytes, i + 1, next, x, post, doc);
            assert(next.blocks =~= d.blocks);
        }
    }
}

/// At the depth limit an archive that can be read is not entered: nothing of it
/// is shown but the warning that says so, whatever the time.
pub proof fn nesting_stops_at_the_limit<X: Extractor>(
    tools: X,
    bytes: Seq<u8>,
    pre: CxV,
    post: CxV,
    r: Result<DocumentV, ErrorV>,
)
    requires
        pre.depth >= pre.limits.max_depth,
        archive::archive_fault(bytes) is None,
        zip_converts(tools, bytes, pre, post, r),
    ensures
        r == Ok::<DocumentV, ErrorV>(too_deep(pre.limits.max_depth)),
        post == pre,
{
}

/// An archive that cannot be read is refused with what is wrong with it, and
/// costs nothing, whatever the depth and the time.
pub proof fn unreadable_archives_are_refused<X: Extractor>(
    tools: X,
    bytes: Seq<u8>,
    pre: CxV,
    post: CxV,
    r: Result<DocumentV, ErrorV>,
)
    requires
        archive::archive_fault(bytes) is Some,
        zip_converts(tools, bytes, pre, post, r),
    ensures
        r == Err::<DocumentV, ErrorV>(
            ErrorV::Malformed {
                format: "zip"@,
                message: archive::archive_fault(bytes)->Some_0.1,
            },
        ),
        post == pre,
{
}

/// An archive without members has no member before which the time could run
/// out: it is said to hold nothing.
pub proof fn empty_archives_are_reported<X: Extractor>(
    tools: X,
    bytes: Seq<u8>,
    pre: CxV,
    post: CxV,
    r: Result<DocumentV, ErrorV>,
)
    requires
        archive::archive_fault(bytes) is None,
        archive::archive_count(bytes) == 0,
        pre.depth < pre.limits.max_depth,
        zip_converts(tools, bytes, pre, post, r),
    ensures
        r == Ok::<DocumentV, ErrorV>(finish_zip(ir::empty_document())),
        post == pre,
{
}

} // verus!

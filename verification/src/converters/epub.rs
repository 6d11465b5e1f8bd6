//! EPUB books.

use vstd::prelude::*;
use crate::archive;
use crate::archive::Archive;
use crate::chars;
use crate::converters;
use crate::converters::ooxml;
use crate::converters::ooxml::{open, read_nodes, read_part};
use crate::converters::squeeze;
use crate::converters::xml;
use crate::converters::xml::{find_pair, Node, NodeV};
use crate::cx::{ConvertCx, CxV};
use crate::detect;
use crate::error::{ConvertError, ErrorV, Warning, WarningKind, WarningV};
use crate::ir;
use crate::ir::{Block, BlockV, Document, DocumentV, Inline, MetadataV, SpanV};
use crate::registry;
use crate::registry::{Converter, PRIORITY_SPECIFIC};
use crate::stream_info::{Probe, ProbeV, StreamInfo, StreamInfoV};
use crate::text;

verus! {

/// EPUB books.
pub struct EpubConverter;

pub open spec fn epub_takes(probe: ProbeV, info: StreamInfoV) -> bool {
    probe.starts_with(detect::zip_magic()) && (info.is_ext("epub"@) || info.is_mime(
        "application/epub+zip"@,
    ))
}

/// The path of the first package that the container names.
pub open spec fn rootfile_of(nodes: Seq<NodeV>) -> Option<Seq<char>>
    decreases nodes.len(),
{
    if nodes.len() == 0 {
        None
    } else {
        match rootfile_of(nodes.drop_last()) {
            Some(p) => Some(p),
            None => if nodes.last().name() == "rootfile"@ {
                nodes.last().attr("full-path"@)
            } else {
                None
            },
        }
    }
}

/// What a package document says.
pub struct Package {
    pub title: Option<String>,
    pub creator: Option<String>,
    pub language: Option<String>,
    pub date: Option<String>,
    /// Identifier and path of each content document.
    pub manifest: Vec<(String, String)>,
    /// Identifiers of navigation documents.
    pub nav_ids: Vec<String>,
    /// Identifiers in reading order.
    pub spine: Vec<String>,
}

/// The value of a [`Package`].
#[verifier::ext_equal]
pub struct PackageV {
    pub title: Option<Seq<char>>,
    pub creator: Option<Seq<char>>,
    pub language: Option<Seq<char>>,
    pub date: Option<Seq<char>>,
    pub manifest: Seq<(Seq<char>, Seq<char>)>,
    pub nav_ids: Seq<Seq<char>>,
    pub spine: Seq<Seq<char>>,
}

impl View for Package {
    type V = PackageV;

    open spec fn view(&self) -> PackageV {
        PackageV {
            title: chars::opt(self.title),
            creator: chars::opt(self.creator),
            language: chars::opt(self.language),
            date: chars::opt(self.date),
            manifest: ir::pairs_view(self.manifest@),
            nav_ids: chars::texts(self.nav_ids@),
            spine: chars::texts(self.spine@),
        }
    }
}

pub open spec fn empty_package() -> PackageV {
    PackageV {
        title: None,
        creator: None,
        language: None,
        date: None,
        manifest: seq![],
        nav_ids: seq![],
        spine: seq![],
    }
}

pub open spec fn is_nav(n: NodeV) -> bool {
    (match n.attr("properties"@) {
        Some(p) => chars::words(p).contains("nav"@),
        None => false,
    }) || n.attr("media-type"@) == Some("application/x-dtbncx+xml"@)
}

pub open spec fn first_of(o: Option<Seq<char>>, n: NodeV) -> Option<Seq<char>> {
    match o {
        Some(v) => Some(v),
        None => Some(converters::spec_squeeze(n.own_text)),
    }
}

pub open spec fn package_step(p: PackageV, n: NodeV) -> PackageV {
    let name = n.name();
    if name == "title"@ {
        PackageV { title: first_of(p.title, n), ..p }
    } else if name == "creator"@ {
        PackageV { creator: first_of(p.creator, n), ..p }
    } else if name == "language"@ {
        PackageV { language: first_of(p.language, n), ..p }
    } else if name == "date"@ {
        PackageV { date: first_of(p.date, n), ..p }
    } else if name == "item"@ {
        match (n.attr("id"@), n.attr("href"@)) {
            (Some(id), Some(href)) => if is_nav(n) {
                PackageV { nav_ids: p.nav_ids.push(id), ..p }
            } else {
                PackageV { manifest: p.manifest.push((id, href)), ..p }
            },
            _ => p,
        }
    } else if name == "itemref"@ {
        match n.attr("idref"@) {
            Some(id) => PackageV { spine: p.spine.push(id), ..p },
            None => p,
        }
    } else {
        p
    }
}

pub open spec fn package_run(nodes: Seq<NodeV>) -> PackageV
    decreases nodes.len(),
{
    if nodes.len() == 0 {
        empty_package()
    } else {
        package_step(package_run(nodes.drop_last()), nodes.last())
    }
}

pub open spec fn nonempty(o: Option<Seq<char>>) -> Option<Seq<char>> {
    match o {
        Some(v) => if v.len() == 0 {
            None
        } else {
            Some(v)
        },
        None => None,
    }
}

/// The package that a package document describes.
pub open spec fn package_of(nodes: Seq<NodeV>) -> PackageV {
    let p = package_run(nodes);
    PackageV {
        title: nonempty(p.title),
        creator: nonempty(p.creator),
        language: nonempty(p.language),
        date: nonempty(p.date),
        ..p
    }
}

/// The heading level of an `h1` to `h6` element.
pub open spec fn heading_of(name: Seq<char>) -> Option<u8> {
    if chars::starts_with(name, "h"@) {
        match chars::parse_unsigned(name.skip("h"@.len() as int), 255) {
            Some(n) => if 1 <= n <= 6 {
                Some(n as u8)
            } else {
                None
            },
            None => None,
        }
    } else {
        None
    }
}

/// The block that an element of a chapter becomes.
pub open spec fn chapter_block(n: NodeV) -> Option<BlockV> {
    let t = converters::spec_squeeze(n.text);
    if t.len() == 0 {
        None
    } else {
        match heading_of(n.name()) {
            Some(level) => Some(BlockV::Heading { level, text: seq![SpanV::Text(t)] }),
            None => if n.name() == "p"@ || n.name() == "blockquote"@ || n.name() == "li"@ {
                Some(BlockV::Paragraph(seq![SpanV::Text(t)]))
            } else {
                None
            },
        }
    }
}

pub open spec fn spec_chapter_blocks(nodes: Seq<NodeV>) -> Seq<BlockV>
    decreases nodes.len(),
{
    if nodes.len() == 0 {
        seq![]
    } else {
        let t = spec_chapter_blocks(nodes.drop_last());
        match chapter_block(nodes.last()) {
            Some(b) => t.push(b),
            None => t,
        }
    }
}

/// The segments of a path once `.` and `..` are resolved.
pub open spec fn resolved(segments: Seq<Seq<char>>) -> Seq<Seq<char>>
    decreases segments.len(),
{
    if segments.len() == 0 {
        seq![]
    } else {
        let t = resolved(segments.drop_last());
        let s = segments.last();
        if s.len() == 0 || s == "."@ {
            t
        } else if s == ".."@ {
            if t.len() > 0 {
                t.drop_last()
            } else {
                t
            }
        } else {
            t.push(s)
        }
    }
}

pub open spec fn spec_normalise(path: Seq<char>) -> Seq<char> {
    chars::join(resolved(chars::split(path, "/"@)), "/"@)
}

/// No segment of a resolved path is empty, `.` or `..`: a chapter's path stays
/// inside the container.
pub proof fn resolved_paths_stay_inside(segments: Seq<Seq<char>>)
    ensures
        forall|i: int|
            0 <= i < resolved(segments).len() ==> (#[trigger] resolved(segments)[i]).len() > 0
                && resolved(segments)[i] != "."@ && resolved(segments)[i] != ".."@,
    decreases segments.len(),
{
    if segments.len() > 0 {
        resolved_paths_stay_inside(segments.drop_last());
        let t = resolved(segments.drop_last());
        let u = resolved(segments);
        assert forall|i: int| 0 <= i < u.len() implies (#[trigger] u[i]).len() > 0 && u[i] != "."@
            && u[i] != ".."@ by {
            if i < t.len() {
                assert(u[i] == t[i]);
            }
        }
    }
}

/// The directory of a path, with its slash.
pub open spec fn dir_of(path: Seq<char>) -> Seq<char> {
    match chars::rfind(path, "/"@) {
        Some(i) => path.take(i) + "/"@,
        None => seq![],
    }
}

pub open spec fn epub_fault(message: Seq<char>) -> ErrorV {
    ErrorV::Malformed { format: "epub"@, message }
}

pub open spec fn skipped(message: Seq<char>) -> WarningV {
    WarningV { kind: WarningKind::SkippedMember, message }
}

/// The document with one item of the spine.
pub open spec fn with_spine_item(
    bytes: Seq<u8>,
    p: PackageV,
    base: Seq<char>,
    idref: Seq<char>,
    d: DocumentV,
    c: CxV,
) -> (Result<DocumentV, ErrorV>, CxV) {
    if p.nav_ids.contains(idref) {
        (Ok(d), c)
    } else {
        match ir::lookup(p.manifest, idref) {
            None => (
                Ok(
                    d.warned(
                        skipped(
                            "spine item "@ + text::quoted_debug(idref)
                                + " is not in the manifest"@,
                        ),
                    ),
                ),
                c,
            ),
            Some(href) => {
                let path = spec_normalise(base + href);
                let part = ooxml::spec_read_part(bytes, path, c);
                match part.0 {
                    Err(e) => (Err(e), part.1),
                    Ok(None) => (
                        Ok(
                            d.warned(
                                skipped(
                                    "chapter "@ + path + " is missing from the container"@,
                                ),
                            ),
                        ),
                        part.1,
                    ),
                    Ok(Some(source)) => match xml::spec_fault(source, "epub"@) {
                        Some(e) => (Err(e), part.1),
                        None => (
                            Ok(d.extended(spec_chapter_blocks(xml::spec_nodes(source)))),
                            part.1,
                        ),
                    },
                }
            },
        }
    }
}

/// The document with the items of the spine from the `i`-th on.
pub open spec fn with_spine(
    bytes: Seq<u8>,
    p: PackageV,
    base: Seq<char>,
    i: int,
    d: DocumentV,
    c: CxV,
) -> (Result<DocumentV, ErrorV>, CxV)
    decreases p.spine.len() - i,
{
    if i < 0 || i >= p.spine.len() {
        (Ok(d), c)
    } else {
        let s = with_spine_item(bytes, p, base, p.spine[i], d, c);
        match s.0 {
            Err(e) => s,
            Ok(e) => with_spine(bytes, p, base, i + 1, e, s.1),
        }
    }
}

/// The clock is read before the `i`-th item of the spine or a later one, with the
/// context as `at` says.
pub open spec fn item_reached(
    bytes: Seq<u8>,
    p: PackageV,
    base: Seq<char>,
    i: int,
    d: DocumentV,
    c: CxV,
    at: CxV,
) -> bool
    decreases p.spine.len() - i,
{
    0 <= i < p.spine.len() && (at == c || ({
        let s = with_spine_item(bytes, p, base, p.spine[i], d, c);
        s.0 matches Ok(e) && item_reached(bytes, p, base, i + 1, e, s.1, at)
    }))
}

/// The document with the package's title and metadata.
pub open spec fn with_package(p: PackageV) -> DocumentV {
    let d = match p.title {
        Some(t) => ir::empty_document().titled(t),
        None => ir::empty_document(),
    };
    DocumentV {
        metadata: MetadataV {
            author: p.creator,
            language: p.language,
            created: p.date,
            ..ir::empty_metadata()
        },
        ..d
    }
}

pub open spec fn no_text(message: Seq<char>) -> WarningV {
    WarningV { kind: WarningKind::NoTextLayer, message }
}

/// What a package becomes, read in the order of its spine.
pub open spec fn package_result(bytes: Seq<u8>, p: PackageV, base: Seq<char>, c: CxV) -> (
    Result<DocumentV, ErrorV>,
    CxV,
) {
    let d = with_package(p);
    if p.spine.len() == 0 {
        (Ok(d.warned(no_text("the EPUB spine is empty"@))), c)
    } else {
        let all = with_spine(bytes, p, base, 0, d, c);
        match all.0 {
            Err(e) => all,
            Ok(d) => (
                Ok(
                    if d.blocks.len() == 0 {
                        d.warned(no_text("no chapter in the spine carried text"@))
                    } else {
                        d
                    },
                ),
                all.1,
            ),
        }
    }
}

/// The package of a book, with the directory that its paths start from, and the
/// budget after reading it.
pub open spec fn package_read(bytes: Seq<u8>, pre: CxV) -> (
    Result<(PackageV, Seq<char>), ErrorV>,
    CxV,
) {
    match ooxml::open_fault(bytes, "epub"@) {
        Some(e) => (Err(e), pre),
        None => {
            let container = ooxml::spec_read_part(bytes, "META-INF/container.xml"@, pre);
            match container.0 {
                Err(e) => (Err(e), container.1),
                Ok(None) => (
                    Err(epub_fault("no META-INF/container.xml — not an EPUB"@)),
                    container.1,
                ),
                Ok(Some(cxml)) => match xml::spec_fault(cxml, "epub"@) {
                    Some(e) => (Err(e), container.1),
                    None => match rootfile_of(xml::spec_nodes(cxml)) {
                        None => (
                            Err(epub_fault("container.xml names no rootfile"@)),
                            container.1,
                        ),
                        Some(path) => {
                            let opf = ooxml::spec_read_part(bytes, path, container.1);
                            match opf.0 {
                                Err(e) => (Err(e), opf.1),
                                Ok(None) => (
                                    Err(epub_fault("rootfile "@ + path + " is missing"@)),
                                    opf.1,
                                ),
                                Ok(Some(oxml)) => match xml::spec_fault(oxml, "epub"@) {
                                    Some(e) => (Err(e), opf.1),
                                    None => (
                                        Ok((package_of(xml::spec_nodes(oxml)), dir_of(path))),
                                        opf.1,
                                    ),
                                },
                            }
                        },
                    },
                },
            }
        },
    }
}

/// What a book becomes, and the budget after it.
pub open spec fn epub_result(bytes: Seq<u8>, pre: CxV) -> (Result<DocumentV, ErrorV>, CxV) {
    let read = package_read(bytes, pre);
    match read.0 {
        Err(e) => (Err(e), read.1),
        Ok(p) => package_result(bytes, p.0, p.1, read.1),
    }
}

/// The path of the first package that the container's elements name.
pub fn rootfile_path(nodes: &Vec<Node>) -> (r: Option<String>)
    ensures
        chars::opt(r) == rootfile_of(xml::nodes_view(nodes@)),
{
    let ghost v = xml::nodes_view(nodes@);
    let mut path: Option<String> = None;
    let mut i: usize = 0;
    while i < nodes.len()
        invariant
            i <= nodes@.len(),
            v == xml::nodes_view(nodes@),
            chars::opt(path) == rootfile_of(v.take(i as int)),
        decreases nodes@.len() - i,
    {
        assert(v.take(i + 1).drop_last() =~= v.take(i as int));
        if path.is_none() {
            if text::eq(nodes[i].name(), "rootfile") {
                path = nodes[i].attr("full-path");
            }
        }
        i += 1;
    }
    assert(v.take(v.len() as int) =~= v);
    path
}

fn has_word(s: &str, word: &str) -> (r: bool)
    ensures
        r == chars::words(s@).contains(word@),
{
    let ws = text::words(s);
    text_in(&ws, word)
}

fn text_in(v: &Vec<String>, s: &str) -> (r: bool)
    ensures
        r == chars::texts(v@).contains(s@),
{
    let ghost t = chars::texts(v@);
    let mut i: usize = 0;
    while i < v.len()
        invariant
            i <= v@.len(),
            t == chars::texts(v@),
            forall|k: int| 0 <= k < i ==> t[k] != s@,
        decreases v@.len() - i,
    {
        if text::eq(&v[i], s) {
            assert(t[i as int] == s@);
            return true;
        }
        i += 1;
    }
    false
}

fn nav_item(n: &Node) -> (r: bool)
    ensures
        r == is_nav(n@),
{
    if let Some(p) = n.attr("properties") {
        if has_word(&p, "nav") {
            return true;
        }
    }
    match n.attr("media-type") {
        Some(m) => text::eq(&m, "application/x-dtbncx+xml"),
        None => false,
    }
}

fn drop_empty(o: Option<String>) -> (r: Option<String>)
    ensures
        chars::opt(r) == nonempty(chars::opt(o)),
{
    match o {
        Some(s) => if text::is_empty(&s) {
            None
        } else {
            Some(s)
        },
        None => None,
    }
}

fn push_text(v: &mut Vec<String>, s: String)
    ensures
        chars::texts(final(v)@) == chars::texts(old(v)@).push(s@),
{
    proof {
        chars::lemma_texts_push(v@, s);
    }
    v.push(s);
}

impl Package {
    fn visit(&mut self, n: &Node)
        ensures
            final(self)@ == package_step(old(self)@, n@),
    {
        let name = n.name();
        if text::eq(name, "title") {
            if self.title.is_none() {
                self.title = Some(squeeze(&n.own_text));
            }
        } else if text::eq(name, "creator") {
            if self.creator.is_none() {
                self.creator = Some(squeeze(&n.own_text));
            }
        } else if text::eq(name, "language") {
            if self.language.is_none() {
                self.language = Some(squeeze(&n.own_text));
            }
        } else if text::eq(name, "date") {
            if self.date.is_none() {
                self.date = Some(squeeze(&n.own_text));
            }
        } else if text::eq(name, "item") {
            if let Some(id) = n.attr("id") {
                if let Some(href) = n.attr("href") {
                    if nav_item(n) {
                        push_text(&mut self.nav_ids, id);
                    } else {
                        let ghost before = self.manifest@;
                        self.manifest.push((id, href));
                        assert(ir::pairs_view(self.manifest@) =~= ir::pairs_view(before).push(
                            (id@, href@),
                        ));
                    }
                }
            }
        } else if text::eq(name, "itemref") {
            if let Some(id) = n.attr("idref") {
                push_text(&mut self.spine, id);
            }
        }
    }
}

/// The package that a package document's elements describe.
pub fn parse_package(nodes: &Vec<Node>) -> (r: Package)
    ensures
        r@ == package_of(xml::nodes_view(nodes@)),
{
    let ghost v = xml::nodes_view(nodes@);
    let mut p = Package {
        title: None,
        creator: None,
        language: None,
        date: None,
        manifest: Vec::new(),
        nav_ids: Vec::new(),
        spine: Vec::new(),
    };
    assert(p@ =~= empty_package());
    let mut i: usize = 0;
    while i < nodes.len()
        invariant
            i <= nodes@.len(),
            v == xml::nodes_view(nodes@),
            p@ == package_run(v.take(i as int)),
        decreases nodes@.len() - i,
    {
        assert(v.take(i + 1).drop_last() =~= v.take(i as int));
        p.visit(&nodes[i]);
        i += 1;
    }
    assert(v.take(v.len() as int) =~= v);
    Package {
        title: drop_empty(p.title),
        creator: drop_empty(p.creator),
        language: drop_empty(p.language),
        date: drop_empty(p.date),
        manifest: p.manifest,
        nav_ids: p.nav_ids,
        spine: p.spine,
    }
}

fn heading_level(name: &str) -> (r: Option<u8>)
    ensures
        r == heading_of(name@),
{
    match text::strip_prefix(name, "h") {
        Some(d) => match text::parse_unsigned(&d, 255) {
            Some(n) => if 1 <= n && n <= 6 {
                Some(n as u8)
            } else {
                None
            },
            None => None,
        },
        None => None,
    }
}

/// The blocks of a chapter's elements.
pub fn chapter_blocks(nodes: &Vec<Node>) -> (r: Vec<Block>)
    ensures
        ir::blocks_view(r@) == spec_chapter_blocks(xml::nodes_view(nodes@)),
{
    let ghost v = xml::nodes_view(nodes@);
    let mut blocks: Vec<Block> = Vec::new();
    let mut i: usize = 0;
    assert(ir::blocks_view(blocks@) =~= seq![]);
    while i < nodes.len()
        invariant
            i <= nodes@.len(),
            v == xml::nodes_view(nodes@),
            ir::blocks_view(blocks@) == spec_chapter_blocks(v.take(i as int)),
        decreases nodes@.len() - i,
    {
        assert(v.take(i + 1).drop_last() =~= v.take(i as int));
        let name = nodes[i].name();
        let t = squeeze(&nodes[i].text);
        if !text::is_empty(&t) {
            let made: Option<Block> = match heading_level(name) {
                Some(level) => Some(Block::Heading { level, text: Inline::text(t) }),
                None => if text::eq(name, "p") || text::eq(name, "blockquote") || text::eq(
                    name,
                    "li",
                ) {
                    Some(Block::Paragraph(Inline::text(t)))
                } else {
                    None
                },
            };
            if let Some(b) = made {
                proof {
                    ir::lemma_blocks_push(blocks@, b);
                }
                blocks.push(b);
            }
        }
        i += 1;
    }
    assert(v.take(v.len() as int) =~= v);
    blocks
}

/// A path with `.` and `..` resolved.
pub fn normalise(path: &str) -> (r: String)
    ensures
        r@ == spec_normalise(path@),
{
    let segments = text::split(path, "/");
    let ghost v = chars::texts(segments@);
    let mut out: Vec<String> = Vec::new();
    let mut i: usize = 0;
    assert(chars::texts(out@) =~= seq![]);
    while i < segments.len()
        invariant
            i <= segments@.len(),
            v == chars::texts(segments@),
            chars::texts(out@) == resolved(v.take(i as int)),
        decreases segments@.len() - i,
    {
        assert(v.take(i + 1).drop_last() =~= v.take(i as int));
        assert(v.take(i + 1).last() == segments@[i as int]@);
        let s = &segments[i];
        if text::is_empty(s) || text::eq(s, ".") {
        } else if text::eq(s, "..") {
            let ghost before = out@;
            if out.len() > 0 {
                out.pop();
                assert(chars::texts(out@) =~= chars::texts(before).drop_last());
            }
        } else {
            push_text(&mut out, s.clone());
        }
        i += 1;
    }
    assert(v.take(v.len() as int) =~= v);
    text::join(&out, "/")
}

fn directory(path: &str) -> (r: String)
    ensures
        r@ == dir_of(path@),
{
    match text::rfind(path, "/") {
        Some(i) => {
            let d = text::take(path, i);
            text::cat(&d, "/")
        },
        None => String::new(),
    }
}

/// Adds one item of the spine to the document.
fn push_spine_item(
    zip: &mut Archive,
    p: &Package,
    base: &str,
    idref: &str,
    doc: &mut Document,
    cx: &mut ConvertCx<'_>,
) -> (r: Result<(), ConvertError>)
    ensures
        archive::archive_bytes(*final(zip)) == archive::archive_bytes(*old(zip)),
        *final(final(cx).budget) == *final(old(cx).budget),
        final(cx).start() == old(cx).start(),
        old(cx)@.grows_to(final(cx)@),
        ({
            let want = with_spine_item(
                archive::archive_bytes(*old(zip)),
                p@,
                base@,
                idref@,
                old(doc)@,
                old(cx)@,
            );
            &&& final(cx)@ == want.1
            &&& match r {
                Ok(()) => want.0 == Ok::<DocumentV, ErrorV>(final(doc)@),
                Err(e) => want.0 == Err::<DocumentV, ErrorV>(e@),
            }
        }),
{
    if text_in(&p.nav_ids, idref) {
        return Ok(());
    }
    let href = match find_pair(&p.manifest, idref) {
        Some(h) => h,
        None => {
            let q = text::debug(idref);
            let m = text::cat3("spine item ", &q, " is not in the manifest");
            doc.warn(Warning::new(WarningKind::SkippedMember, m));
            return Ok(());
        },
    };
    let full = text::cat(base, &href);
    let path = normalise(&full);
    match read_part(zip, &path, cx) {
        Err(e) => Err(e),
        Ok(None) => {
            let m = text::cat3("chapter ", &path, " is missing from the container");
            doc.warn(Warning::new(WarningKind::SkippedMember, m));
            Ok(())
        },
        Ok(Some(source)) => {
            let (nodes, fault) = read_nodes(&source, "epub");
            if let Some(e) = fault {
                return Err(e);
            }
            doc.push_all(chapter_blocks(&nodes));
            Ok(())
        },
    }
}

/// The book of a package that was read.
fn read_package(
    zip: &mut Archive,
    p: Package,
    base: &str,
    cx: &mut ConvertCx<'_>,
) -> (r: Result<Document, ConvertError>)
    ensures
        *final(final(cx).budget) == *final(old(cx).budget),
        final(cx).start() == old(cx).start(),
        old(cx)@.grows_to(final(cx)@),
        (registry::outcome(r), final(cx)@) == package_result(
            archive::archive_bytes(*old(zip)),
            p@,
            base@,
            old(cx)@,
        ) || registry::late(old(cx)@, registry::outcome(r)) && item_reached(
            archive::archive_bytes(*old(zip)),
            p@,
            base@,
            0,
            with_package(p@),
            old(cx)@,
            final(cx)@,
        ),
{
    let ghost bytes = archive::archive_bytes(*zip);
    let ghost pv = p@;
    let mut doc = Document::new();
    if let Some(t) = &p.title {
        doc = doc.with_title(t);
    }
    doc.metadata.author = text::opt_clone(&p.creator);
    doc.metadata.language = text::opt_clone(&p.language);
    doc.metadata.created = text::opt_clone(&p.date);
    assert(doc@ =~= with_package(pv));
    if p.spine.len() == 0 {
        doc.warn(Warning::new(WarningKind::NoTextLayer, "the EPUB spine is empty"));
        return Ok(doc);
    }
    let ghost all = with_spine(bytes, pv, base@, 0, doc@, cx@);
    let mut i: usize = 0;
    while i < p.spine.len()
        invariant
            i <= p.spine@.len(),
            pv == p@,
            pv.spine.len() > 0,
            bytes == archive::archive_bytes(*zip),
            bytes == archive::archive_bytes(*old(zip)),
            *final(cx.budget) == *final(old(cx).budget),
            cx.start() == old(cx).start(),
            old(cx)@.grows_to(cx@),
            all == with_spine(bytes, pv, base@, 0, with_package(pv), old(cx)@),
            all == with_spine(bytes, pv, base@, i as int, doc@, cx@),
            forall|at: CxV| #[trigger]
                item_reached(bytes, pv, base@, i as int, doc@, cx@, at) ==> item_reached(
                    bytes,
                    pv,
                    base@,
                    0,
                    with_package(pv),
                    old(cx)@,
                    at,
                ),
        decreases p.spine@.len() - i,
    {
        let ghost d0 = doc@;
        let ghost c0 = cx@;
        if let Err(e) = cx.budget().check_deadline() {
            assert(item_reached(bytes, pv, base@, i as int, d0, c0, c0));
            return Err(e);
        }
        if let Err(e) = push_spine_item(zip, &p, base, &p.spine[i], &mut doc, cx) {
            return Err(e);
        }
        assert forall|at: CxV| #[trigger]
            item_reached(bytes, pv, base@, i + 1, doc@, cx@, at) implies item_reached(
            bytes,
            pv,
            base@,
            0,
            with_package(pv),
            old(cx)@,
            at,
        ) by {
            assert(item_reached(bytes, pv, base@, i as int, d0, c0, at));
        }
        i += 1;
    }
    if doc.blocks.len() == 0 {
        doc.warn(
            Warning::new(WarningKind::NoTextLayer, "no chapter in the spine carried text"),
        );
    }
    Ok(doc)
}

impl Converter for EpubConverter {
    open spec fn named(&self) -> Seq<char> {
        "epub"@
    }

    open spec fn ranked(&self) -> i32 {
        0
    }

    open spec fn takes(&self, probe: ProbeV, info: StreamInfoV) -> bool {
        epub_takes(probe, info)
    }

    open spec fn converts(
        &self,
        bytes: Seq<u8>,
        info: StreamInfoV,
        pre: CxV,
        post: CxV,
        r: Result<DocumentV, ErrorV>,
    ) -> bool {
        let read = package_read(bytes, pre);
        (r, post) == epub_result(bytes, pre) || registry::late(pre, r) && (read.0 matches Ok(p)
            && item_reached(bytes, p.0, p.1, 0, with_package(p.0), read.1, post))
    }

    fn name(&self) -> (r: &'static str) {
        "epub"
    }

    fn priority(&self) -> (r: i32) {
        PRIORITY_SPECIFIC
    }

    fn accepts(&self, probe: &Probe<'_>, info: &StreamInfo) -> (r: bool) {
        detect::has_zip_magic(probe) && (info.is_ext("epub") || info.is_mime(
            "application/epub+zip",
        ))
    }

    fn convert(&self, bytes: &[u8], info: &StreamInfo, cx: &mut ConvertCx<'_>) -> (r: Result<
        Document,
        ConvertError,
    >) {
        let mut zip = match open(bytes, "epub") {
            Ok(z) => z,
            Err(e) => {
                return Err(e);
            },
        };
        let container = match read_part(&mut zip, "META-INF/container.xml", cx) {
            Err(e) => {
                return Err(e);
            },
            Ok(None) => {
                return Err(
                    ConvertError::Malformed {
                        format: "epub",
                        message: "no META-INF/container.xml — not an EPUB".to_owned(),
                    },
                );
            },
            Ok(Some(s)) => s,
        };
        let (nodes, fault) = read_nodes(&container, "epub");
        if let Some(e) = fault {
            return Err(e);
        }
        let path = match rootfile_path(&nodes) {
            Some(p) => p,
            None => {
                return Err(
                    ConvertError::Malformed {
                        format: "epub",
                        message: "container.xml names no rootfile".to_owned(),
                    },
                );
            },
        };
        let opf = match read_part(&mut zip, &path, cx) {
            Err(e) => {
                return Err(e);
            },
            Ok(None) => {
                let message = text::cat3("rootfile ", &path, " is missing");
                return Err(ConvertError::Malformed { format: "epub", message });
            },
            Ok(Some(s)) => s,
        };
        let base = directory(&path);
        let (nodes, fault) = read_nodes(&opf, "epub");
        if let Some(e) = fault {
            return Err(e);
        }
        let p = parse_package(&nodes);
        read_package(&mut zip, p, &base, cx)
    }
}

/// The warning for an item of the spine that the book does not hold: one that
/// the manifest does not list, or one whose part is not in the container.
pub open spec fn missing_warning(
    bytes: Seq<u8>,
    p: PackageV,
    base: Seq<char>,
    idref: Seq<char>,
) -> Option<WarningV> {
    if p.nav_ids.contains(idref) {
        None
    } else {
        match ir::lookup(p.manifest, idref) {
            None => Some(
                skipped(
                    "spine item "@ + text::quoted_debug(idref) + " is not in the manifest"@,
                ),
            ),
            Some(href) => {
                let path = spec_normalise(base + href);
                if forall|x: CxV|
                    (#[trigger] ooxml::spec_read_part(bytes, path, x)).0 == Ok::<
                        Option<Seq<char>>,
                        ErrorV,
                    >(None) {
                    Some(skipped("chapter "@ + path + " is missing from the container"@))
                } else {
                    None
                }
            },
        }
    }
}

/// A chapter that the spine names and the book does not hold is reported.
pub proof fn missing_chapters_are_reported(
    bytes: Seq<u8>,
    p: PackageV,
    base: Seq<char>,
    i: int,
    d: DocumentV,
    c: CxV,
    k: int,
)
    requires
        0 <= i,
    ensures
        with_spine(bytes, p, base, i, d, c).0 matches Ok(doc) ==> {
            &&& forall|w: WarningV| d.warnings.contains(w) ==> #[trigger] doc.warnings.contains(w)
            &&& i <= k < p.spine.len() && missing_warning(bytes, p, base, p.spine[k]) is Some
                ==> doc.warnings.contains(missing_warning(bytes, p, base, p.spine[k])->Some_0)
        },
    decreases p.spine.len() - i,
{
    if i < p.spine.len() {
        let s = with_spine_item(bytes, p, base, p.spine[i], d, c);
        if let Ok(e) = s.0 {
            missing_chapters_are_reported(bytes, p, base, i + 1, e, s.1, k);
            assert forall|w: WarningV| d.warnings.contains(w) implies e.warnings.contains(w) by {
                let j = d.warnings.index_of(w);
                assert(e.warnings[j] == w);
            }
            if let Some(w) = missing_warning(bytes, p, base, p.spine[i]) {
                assert(e.warnings[d.warnings.len() as int] == w);
            }
        }
    }
}

} // verus!

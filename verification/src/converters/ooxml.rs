//! Word and PowerPoint documents.

use vstd::prelude::*;
use crate::archive;
use crate::archive::Archive;
use crate::bytes;
use crate::chars;
use crate::converters;
use crate::converters::squeeze;
use crate::converters::xml;
use crate::converters::xml::{find_pair, read_events, Node, NodeV};
use crate::cx;
use crate::cx::{ConvertCx, CxV};
use crate::detect;
use crate::error::{ConvertError, ErrorV, Warning, WarningKind, WarningV};
use crate::ir;
use crate::ir::{Block, BlockV, Document, DocumentV, Inline, MetadataV, Span, SpanV, Table, TableV};
use crate::registry;
use crate::registry::{Converter, PRIORITY_SPECIFIC};
use crate::stream_info::{Probe, ProbeV, StreamInfo, StreamInfoV};
use crate::text;

verus! {

/// Why a container cannot be opened.
pub open spec fn open_fault(bytes: Seq<u8>, format: Seq<char>) -> Option<ErrorV> {
    match archive::archive_fault(bytes) {
        Some(f) => Some(
            ErrorV::Malformed {
                format,
                message: if f.0 {
                    "not a readable zip container"@
                } else {
                    f.1
                },
            },
        ),
        None => None,
    }
}

/// Opens a container.
pub(crate) fn open(bytes: &[u8], format: &'static str) -> (r: Result<Archive, ConvertError>)
    ensures
        r matches Ok(a) ==> archive::archive_bytes(a) == bytes@ && open_fault(
            bytes@,
            format@,
        ) is None,
        r matches Err(e) ==> open_fault(bytes@, format@) == Some(e@),
{
    match archive::open(bytes) {
        Ok(a) => Ok(a),
        Err(f) => Err(
            ConvertError::Malformed {
                format,
                message: if f.0 {
                    "not a readable zip container".to_owned()
                } else {
                    f.1
                },
            },
        ),
    }
}

/// How many bytes may still be read before the budget is surely exceeded.
pub open spec fn read_limit(c: CxV) -> u64 {
    cx::sat_add(
        (if c.expanded >= c.limits.max_expanded_bytes {
            0
        } else {
            (c.limits.max_expanded_bytes - c.expanded) as u64
        }),
        1,
    )
}

/// A part of a container as text, and the budget after it was read. A part
/// that is not there costs nothing.
pub open spec fn spec_read_part(bytes: Seq<u8>, name: Seq<char>, c: CxV) -> (
    Result<Option<Seq<char>>, ErrorV>,
    CxV,
) {
    match archive::archive_part(bytes, name, read_limit(c)) {
        None => (Ok(None), c),
        Some(Err(m)) => (
            Err(ErrorV::Malformed { format: "ooxml"@, message: name + ": "@ + m }),
            c,
        ),
        Some(Ok(data)) => {
            let n = data.len() as u64;
            let after = c.with_budget(c.budget().expand(n));
            if c.budget().expand_fails(n) {
                (
                    Err(
                        cx::limit_error(
                            "max_expanded_bytes"@,
                            after.expanded,
                            c.limits.max_expanded_bytes,
                        ),
                    ),
                    after,
                )
            } else {
                (Ok(Some(bytes::lossy(data))), after)
            }
        },
    }
}

pub open spec fn part_view(r: Result<Option<String>, ConvertError>) -> Result<
    Option<Seq<char>>,
    ErrorV,
> {
    match r {
        Ok(o) => Ok(chars::opt(o)),
        Err(e) => Err(e@),
    }
}

/// How much may still be decompressed, and one byte more.
pub(crate) fn remaining_limit(cx: &ConvertCx<'_>) -> (r: u64)
    ensures
        r == read_limit(cx@),
{
    let max: u64 = cx.limits().max_expanded_bytes;
    let used: u64 = cx.budget().expanded_bytes();
    let left: u64 = if used >= max {
        0
    } else {
        max - used
    };
    left.saturating_add(1)
}

/// Reads a part of a container as text, against the budget.
pub(crate) fn read_part(zip: &mut Archive, name: &str, cx: &mut ConvertCx<'_>) -> (r: Result<
    Option<String>,
    ConvertError,
>)
    ensures
        archive::archive_bytes(*final(zip)) == archive::archive_bytes(*old(zip)),
        *final(final(cx).budget) == *final(old(cx).budget),
        final(cx).start() == old(cx).start(),
        old(cx)@.grows_to(final(cx)@),
        (part_view(r), final(cx)@) == spec_read_part(
            archive::archive_bytes(*old(zip)),
            name@,
            old(cx)@,
        ),
{
    let limit: u64 = remaining_limit(cx);
    match archive::read_named(zip, name, limit) {
        None => Ok(None),
        Some(Err(m)) => {
            let message = text::cat3(name, ": ", &m);
            Err(ConvertError::Malformed { format: "ooxml", message })
        },
        Some(Ok(data)) => {
            if let Err(e) = cx.charge_expanded(data.len() as u64) {
                return Err(e);
            }
            Ok(Some(bytes::from_utf8_lossy(data.as_slice())))
        },
    }
}

/// What the properties part says so far.
#[verifier::ext_equal]
pub struct CoreV {
    pub title: Option<Seq<char>>,
    pub creator: Option<Seq<char>>,
    pub created: Option<Seq<char>>,
    pub modified: Option<Seq<char>>,
    pub meta: MetadataV,
}

pub open spec fn core_step(c: CoreV, n: NodeV) -> CoreV {
    let v = converters::spec_squeeze(n.own_text);
    let name = n.name();
    if v.len() == 0 {
        c
    } else if name == "title"@ {
        CoreV { title: Some(v), ..c }
    } else if name == "creator"@ {
        CoreV { creator: Some(v), ..c }
    } else if name == "created"@ {
        CoreV { created: Some(v), ..c }
    } else if name == "modified"@ {
        CoreV { modified: Some(v), ..c }
    } else if name == "language"@ {
        CoreV { meta: MetadataV { language: Some(v), ..c.meta }, ..c }
    } else if name == "keywords"@ || name == "subject"@ || name == "category"@ {
        CoreV { meta: c.meta.with(name, v), ..c }
    } else {
        c
    }
}

pub open spec fn core_run(m: MetadataV, nodes: Seq<NodeV>) -> CoreV
    decreases nodes.len(),
{
    if nodes.len() == 0 {
        CoreV { title: None, creator: None, created: None, modified: None, meta: m }
    } else {
        core_step(core_run(m, nodes.drop_last()), nodes.last())
    }
}

/// The document with the properties that the container states.
pub open spec fn with_core(d: DocumentV, c: CoreV) -> DocumentV {
    DocumentV {
        title: match c.title {
            Some(t) => Some(t),
            None => d.title,
        },
        metadata: MetadataV {
            author: c.creator,
            created: c.created,
            modified: c.modified,
            ..c.meta
        },
        ..d
    }
}

/// The properties part is optional: where it cannot be read, nothing changes.
pub open spec fn spec_core_properties(bytes: Seq<u8>, d: DocumentV, c: CxV) -> (DocumentV, CxV) {
    let p = spec_read_part(bytes, "docProps/core.xml"@, c);
    match p.0 {
        Ok(Some(source)) => (
            with_core(d, core_run(d.metadata, xml::spec_nodes(source))),
            p.1,
        ),
        _ => (d, p.1),
    }
}

struct Core {
    title: Option<String>,
    creator: Option<String>,
    created: Option<String>,
    modified: Option<String>,
}

spec fn core_view(c: Core, m: MetadataV) -> CoreV {
    CoreV {
        title: chars::opt(c.title),
        creator: chars::opt(c.creator),
        created: chars::opt(c.created),
        modified: chars::opt(c.modified),
        meta: m,
    }
}

fn visit_core(c: &mut Core, doc: &mut Document, n: &Node)
    ensures
        core_view(*final(c), final(doc)@.metadata) == core_step(
            core_view(*old(c), old(doc)@.metadata),
            n@,
        ),
        final(doc)@ == (DocumentV { metadata: final(doc)@.metadata, ..old(doc)@ }),
{
    let v = squeeze(&n.own_text);
    if text::is_empty(&v) {
        return;
    }
    let name = n.name();
    if text::eq(name, "title") {
        c.title = Some(v);
    } else if text::eq(name, "creator") {
        c.creator = Some(v);
    } else if text::eq(name, "created") {
        c.created = Some(v);
    } else if text::eq(name, "modified") {
        c.modified = Some(v);
    } else if text::eq(name, "language") {
        doc.metadata.language = Some(v);
    } else if text::eq(name, "keywords") || text::eq(name, "subject") || text::eq(
        name,
        "category",
    ) {
        doc.metadata.set(name, v);
    }
}

/// The elements of a text, those before a fault included, and the fault.
pub(crate) fn read_nodes(source: &str, format: &'static str) -> (r: (
    Vec<Node>,
    Option<ConvertError>,
))
    ensures
        xml::nodes_view(r.0@) == xml::spec_nodes(source@),
        r.1 is Some == xml::spec_fault(source@, format@) is Some,
        r.1 matches Some(e) ==> xml::spec_fault(source@, format@) == Some(e@),
{
    let mut nodes: Vec<Node> = Vec::new();
    assert(xml::nodes_view(nodes@) =~= seq![]);
    let read = read_events(source, format, &mut nodes);
    assert(xml::nodes_view(nodes@) =~= xml::spec_nodes(source@));
    match read {
        Ok(()) => (nodes, None),
        Err(e) => (nodes, Some(e)),
    }
}

/// Takes the properties over that the elements of the properties part state.
pub fn apply_core(doc: &mut Document, nodes: &Vec<Node>)
    ensures
        final(doc)@ == with_core(
            old(doc)@,
            core_run(old(doc)@.metadata, xml::nodes_view(nodes@)),
        ),
{
    let ghost v = xml::nodes_view(nodes@);
    let ghost d0 = doc@;
    let mut c = Core { title: None, creator: None, created: None, modified: None };
    let mut i: usize = 0;
    while i < nodes.len()
        invariant
            i <= nodes@.len(),
            v == xml::nodes_view(nodes@),
            core_view(c, doc@.metadata) == core_run(d0.metadata, v.take(i as int)),
            doc@ == (DocumentV { metadata: doc@.metadata, ..d0 }),
        decreases nodes@.len() - i,
    {
        assert(v.take(i + 1).drop_last() =~= v.take(i as int));
        visit_core(&mut c, doc, &nodes[i]);
        i += 1;
    }
    assert(v.take(v.len() as int) =~= v);
    if let Some(t) = c.title {
        doc.title = Some(t);
    }
    doc.metadata.author = c.creator;
    doc.metadata.created = c.created;
    doc.metadata.modified = c.modified;
    assert(doc@ =~= with_core(d0, core_run(d0.metadata, v)));
}

pub(crate) fn core_properties(zip: &mut Archive, doc: &mut Document, cx: &mut ConvertCx<'_>)
    ensures
        archive::archive_bytes(*final(zip)) == archive::archive_bytes(*old(zip)),
        *final(final(cx).budget) == *final(old(cx).budget),
        final(cx).start() == old(cx).start(),
        old(cx)@.grows_to(final(cx)@),
        (final(doc)@, final(cx)@) == spec_core_properties(
            archive::archive_bytes(*old(zip)),
            old(doc)@,
            old(cx)@,
        ),
{
    let source = match read_part(zip, "docProps/core.xml", cx) {
        Ok(Some(s)) => s,
        _ => {
            return ;
        },
    };
    let (nodes, _) = read_nodes(&source, "ooxml");
    apply_core(doc, &nodes);
}

/// Identifier and target of each relationship.
pub open spec fn rel_pairs(nodes: Seq<NodeV>) -> Seq<(Seq<char>, Seq<char>)>
    decreases nodes.len(),
{
    if nodes.len() == 0 {
        seq![]
    } else {
        let t = rel_pairs(nodes.drop_last());
        let n = nodes.last();
        if n.name() == "relationship"@ {
            match (n.attr("id"@), n.attr("target"@)) {
                (Some(id), Some(target)) => t.push((id, target)),
                _ => t,
            }
        } else {
            t
        }
    }
}

pub open spec fn spec_relationships(bytes: Seq<u8>, name: Seq<char>, c: CxV) -> (
    Seq<(Seq<char>, Seq<char>)>,
    CxV,
) {
    let p = spec_read_part(bytes, name, c);
    match p.0 {
        Ok(Some(source)) => (rel_pairs(xml::spec_nodes(source)), p.1),
        _ => (seq![], p.1),
    }
}

/// Identifier and target of each relationship among the elements.
pub fn rel_targets(nodes: &Vec<Node>) -> (r: Vec<(String, String)>)
    ensures
        ir::pairs_view(r@) == rel_pairs(xml::nodes_view(nodes@)),
{
    let mut out: Vec<(String, String)> = Vec::new();
    assert(ir::pairs_view(out@) =~= seq![]);
    let ghost v = xml::nodes_view(nodes@);
    let mut i: usize = 0;
    while i < nodes.len()
        invariant
            i <= nodes@.len(),
            v == xml::nodes_view(nodes@),
            ir::pairs_view(out@) == rel_pairs(v.take(i as int)),
        decreases nodes@.len() - i,
    {
        assert(v.take(i + 1).drop_last() =~= v.take(i as int));
        let n = &nodes[i];
        if text::eq(n.name(), "relationship") {
            if let Some(id) = n.attr("id") {
                if let Some(target) = n.attr("target") {
                    let ghost before = out@;
                    out.push((id, target));
                    assert(ir::pairs_view(out@) =~= ir::pairs_view(before).push((id@, target@)));
                }
            }
        }
        i += 1;
    }
    assert(v.take(v.len() as int) =~= v);
    out
}

fn relationships(zip: &mut Archive, name: &str, cx: &mut ConvertCx<'_>) -> (r: Vec<
    (String, String),
>)
    ensures
        archive::archive_bytes(*final(zip)) == archive::archive_bytes(*old(zip)),
        *final(final(cx).budget) == *final(old(cx).budget),
        final(cx).start() == old(cx).start(),
        old(cx)@.grows_to(final(cx)@),
        (ir::pairs_view(r@), final(cx)@) == spec_relationships(
            archive::archive_bytes(*old(zip)),
            name@,
            old(cx)@,
        ),
{
    let source = match read_part(zip, name, cx) {
        Ok(Some(s)) => s,
        _ => {
            let none: Vec<(String, String)> = Vec::new();
            assert(ir::pairs_view(none@) =~= seq![]);
            return none;
        },
    };
    let (nodes, _) = read_nodes(&source, "ooxml");
    rel_targets(&nodes)
}

/// Word documents.
pub struct DocxConverter;

pub open spec fn docx_takes(probe: ProbeV, info: StreamInfoV) -> bool {
    probe.starts_with(detect::zip_magic()) && (info.is_ext("docx"@) || info.is_mime(
        "application/vnd.openxmlformats-officedocument.wordprocessingml.document"@,
    ))
}

struct Run {
    text: String,
    linked: bool,
    bold: bool,
    italic: bool,
}

/// The value of a run of text.
#[verifier::ext_equal]
pub struct RunV {
    pub text: Seq<char>,
    pub linked: bool,
    pub bold: bool,
    pub italic: bool,
}

impl View for Run {
    type V = RunV;

    closed spec fn view(&self) -> RunV {
        RunV { text: self.text@, linked: self.linked, bold: self.bold, italic: self.italic }
    }
}

spec fn runs_view(s: Seq<Run>) -> Seq<RunV> {
    Seq::new(s.len(), |i: int| s[i]@)
}

struct TableAcc {
    rows: Vec<Vec<Inline>>,
    row: Vec<Inline>,
}

/// A table under construction.
#[verifier::ext_equal]
pub struct TableAccV {
    pub rows: Seq<Seq<Seq<SpanV>>>,
    pub row: Seq<Seq<SpanV>>,
}

impl View for TableAcc {
    type V = TableAccV;

    closed spec fn view(&self) -> TableAccV {
        TableAccV { rows: ir::rows_view(self.rows@), row: ir::cells_view(self.row@) }
    }
}

spec fn accs_view(s: Seq<TableAcc>) -> Seq<TableAccV> {
    Seq::new(s.len(), |i: int| s[i]@)
}

pub open spec fn empty_acc() -> TableAccV {
    TableAccV { rows: seq![], row: seq![] }
}

struct DocxWalker {
    blocks: Vec<Block>,
    runs: Vec<Run>,
    style: Option<String>,
    list_level: Option<u8>,
    pending_bold: bool,
    pending_italic: bool,
    pending_cell: Option<String>,
    tables: Vec<TableAcc>,
}

/// How far the walk through a Word document has got.
#[verifier::ext_equal]
pub struct WalkV {
    pub blocks: Seq<BlockV>,
    pub runs: Seq<RunV>,
    pub style: Option<Seq<char>>,
    pub list_level: Option<u8>,
    pub bold: bool,
    pub italic: bool,
    /// The text of the current cell's paragraphs so far.
    pub cell: Option<Seq<char>>,
    /// The open tables, outermost first.
    pub tables: Seq<TableAccV>,
}

impl View for DocxWalker {
    type V = WalkV;

    closed spec fn view(&self) -> WalkV {
        WalkV {
            blocks: ir::blocks_view(self.blocks@),
            runs: runs_view(self.runs@),
            style: chars::opt(self.style),
            list_level: self.list_level,
            bold: self.pending_bold,
            italic: self.pending_italic,
            cell: chars::opt(self.pending_cell),
            tables: accs_view(self.tables@),
        }
    }
}

pub open spec fn start_walk() -> WalkV {
    WalkV {
        blocks: seq![],
        runs: seq![],
        style: None,
        list_level: None,
        bold: false,
        italic: false,
        cell: None,
        tables: seq![],
    }
}

/// How often a name occurs in a path.
pub open spec fn count_name(path: Seq<Seq<char>>, name: Seq<char>) -> nat
    decreases path.len(),
{
    if path.len() == 0 {
        0
    } else {
        count_name(path.drop_last(), name) + (if path.last() == name {
            1nat
        } else {
            0
        })
    }
}

/// Where a table at this nesting is kept.
pub open spec fn slot(depth: nat) -> nat {
    if depth == 0 {
        0
    } else {
        (depth - 1) as nat
    }
}

pub open spec fn ensure_len(t: Seq<TableAccV>, n: nat) -> Seq<TableAccV> {
    Seq::new(
        if t.len() >= n {
            t.len()
        } else {
            n
        },
        |i: int|
            if i < t.len() {
                t[i]
            } else {
                empty_acc()
            },
    )
}

pub open spec fn plain_run(t: Seq<char>) -> RunV {
    RunV { text: t, linked: false, bold: false, italic: false }
}

/// Where the trailing linked runs start.
pub open spec fn link_start(runs: Seq<RunV>) -> nat
    decreases runs.len(),
{
    if runs.len() > 0 && runs.last().linked {
        link_start(runs.drop_last())
    } else {
        runs.len()
    }
}

pub open spec fn concat_runs(runs: Seq<RunV>) -> Seq<char>
    decreases runs.len(),
{
    if runs.len() == 0 {
        seq![]
    } else {
        concat_runs(runs.drop_last()) + runs.last().text
    }
}

/// A link, carried in a run's text between two control characters.
pub open spec fn sentinel(target: Seq<char>, label: Seq<char>) -> Seq<char> {
    "\u{1}"@ + target + "\u{1}"@ + label
}

/// A closed hyperlink turns its runs into one that carries the target.
pub open spec fn spec_close_hyperlink(
    w: WalkV,
    n: NodeV,
    rels: Seq<(Seq<char>, Seq<char>)>,
) -> WalkV {
    match n.attr("id"@) {
        Some(id) => match ir::lookup(rels, id) {
            Some(target) => {
                let start = link_start(w.runs);
                if start >= w.runs.len() {
                    w
                } else {
                    WalkV {
                        runs: w.runs.take(start as int).push(
                            plain_run(
                                sentinel(target, concat_runs(w.runs.skip(start as int))),
                            ),
                        ),
                        ..w
                    }
                }
            },
            None => w,
        },
        None => w,
    }
}

/// Target and label of a run that carries a link.
pub open spec fn spec_split_link(s: Seq<char>) -> Option<(Seq<char>, Seq<char>)> {
    if chars::starts_with(s, "\u{1}"@) {
        chars::split_once(s.skip("\u{1}"@.len() as int), "\u{1}"@)
    } else {
        None
    }
}

pub open spec fn unlinked(s: Seq<char>) -> Seq<char> {
    match spec_split_link(s) {
        Some(p) => p.1,
        None => s,
    }
}

pub open spec fn concat_unlinked(runs: Seq<RunV>) -> Seq<char>
    decreases runs.len(),
{
    if runs.len() == 0 {
        seq![]
    } else {
        concat_unlinked(runs.drop_last()) + unlinked(runs.last().text)
    }
}

/// The runs as plain text.
pub open spec fn spec_runs_to_plain(runs: Seq<RunV>) -> Seq<char> {
    converters::spec_squeeze(concat_unlinked(runs))
}

pub open spec fn run_span(r: RunV) -> Option<SpanV> {
    match spec_split_link(r.text) {
        Some(p) => Some(SpanV::Link { text: seq![SpanV::Text(p.1)], href: p.0 }),
        None => if r.text.len() == 0 {
            None
        } else if r.bold {
            Some(SpanV::Strong(seq![SpanV::Text(r.text)]))
        } else if r.italic {
            Some(SpanV::Emphasis(seq![SpanV::Text(r.text)]))
        } else {
            Some(SpanV::Text(r.text))
        },
    }
}

/// The runs as inline content.
pub open spec fn spec_runs_to_inline(runs: Seq<RunV>) -> Seq<SpanV>
    decreases runs.len(),
{
    if runs.len() == 0 {
        seq![]
    } else {
        let t = spec_runs_to_inline(runs.drop_last());
        match run_span(runs.last()) {
            Some(s) => t.push(s),
            None => t,
        }
    }
}

/// A style name without case, spaces, hyphens and underscores.
pub open spec fn style_key(s: Seq<char>) -> Seq<char> {
    chars::replace(chars::replace(chars::replace(chars::lower(s), " "@, ""@), "-"@, ""@), "_"@, ""@)
}

pub open spec fn trim_digits(s: Seq<char>) -> Seq<char>
    decreases s.len(),
{
    if s.len() > 0 && chars::is_digit(s.last()) {
        trim_digits(s.drop_last())
    } else {
        s
    }
}

/// Whether a style is a list's, and then whether the list is ordered.
pub open spec fn spec_list_style(style: Option<Seq<char>>) -> Option<bool> {
    match style {
        Some(s) => {
            let k = trim_digits(style_key(s));
            if k == "listnumber"@ || k == "listnum"@ || k == "numberedlist"@ {
                Some(true)
            } else if k == "listbullet"@ || k == "listparagraph"@ || k == "list"@ || k
                == "bulletlist"@ || k == "bullet"@ {
                Some(false)
            } else {
                None
            }
        },
        None => None,
    }
}

/// The heading level that a style stands for.
pub open spec fn spec_heading_level(style: Option<Seq<char>>) -> Option<u8> {
    match style {
        Some(s) => {
            let k = style_key(s);
            if k == "title"@ {
                Some(1u8)
            } else if k == "subtitle"@ {
                Some(2u8)
            } else if chars::starts_with(k, "heading"@) {
                match chars::parse_unsigned(k.skip("heading"@.len() as int), 255) {
                    Some(n) => if 1 <= n <= 6 {
                        Some(n as u8)
                    } else {
                        None
                    },
                    None => None,
                }
            } else {
                None
            }
        },
        None => None,
    }
}

/// A list item joins the list before it, or starts one.
pub open spec fn add_item(blocks: Seq<BlockV>, ordered: bool, text: Seq<SpanV>) -> Seq<BlockV> {
    let item = seq![BlockV::Paragraph(text)];
    if blocks.len() > 0 {
        match blocks.last() {
            BlockV::List { ordered: o, items } => blocks.drop_last().push(
                BlockV::List { ordered: o, items: items.push(item) },
            ),
            _ => blocks.push(BlockV::List { ordered, items: seq![item] }),
        }
    } else {
        blocks.push(BlockV::List { ordered, items: seq![item] })
    }
}

/// A closed paragraph becomes cell text, a heading, a list item or a
/// paragraph.
pub open spec fn spec_close_paragraph(w: WalkV, table_depth: nat) -> WalkV {
    let clear = WalkV { runs: seq![], style: None, list_level: None, ..w };
    if table_depth > 0 {
        let t = spec_runs_to_plain(w.runs);
        if t.len() == 0 {
            clear
        } else {
            WalkV {
                cell: match w.cell {
                    Some(c) => Some(c + "\n"@ + t),
                    None => Some(t),
                },
                ..clear
            }
        }
    } else {
        let inline = spec_runs_to_inline(w.runs);
        if chars::is_blank(ir::plain(inline)) {
            clear
        } else {
            WalkV {
                blocks: match spec_heading_level(w.style) {
                    Some(level) => w.blocks.push(BlockV::Heading { level, text: inline }),
                    None => match spec_list_style(w.style) {
                        Some(ordered) => add_item(w.blocks, ordered, inline),
                        None => if w.list_level is Some {
                            add_item(w.blocks, false, inline)
                        } else {
                            w.blocks.push(BlockV::Paragraph(inline))
                        },
                    },
                },
                ..clear
            }
        }
    }
}

/// The table that rows make: the first one is its header.
pub open spec fn headed_table(rows: Seq<Seq<Seq<SpanV>>>) -> BlockV {
    BlockV::Table(TableV { caption: None, header: Some(rows[0]), rows: rows.skip(1) })
}

pub open spec fn spec_close_table(w: WalkV, depth: nat) -> WalkV {
    let i = slot(depth) as int;
    if i >= w.tables.len() {
        w
    } else {
        let rows = w.tables[i].rows;
        WalkV {
            tables: w.tables.update(i, empty_acc()),
            blocks: if rows.len() == 0 {
                w.blocks
            } else {
                w.blocks.push(headed_table(rows))
            },
            ..w
        }
    }
}

/// A closed cell joins the row of its table.
pub open spec fn spec_close_cell(w: WalkV, depth: nat, fallback: Seq<char>) -> WalkV {
    let t = match w.cell {
        Some(c) => if c.len() > 0 {
            c
        } else {
            fallback
        },
        None => fallback,
    };
    let i = slot(depth) as int;
    let tables = ensure_len(w.tables, slot(depth) + 1);
    WalkV {
        cell: None,
        tables: tables.update(
            i,
            TableAccV { row: tables[i].row.push(seq![SpanV::Text(t)]), ..tables[i] },
        ),
        ..w
    }
}

/// A closed row joins its table, unless it is empty.
pub open spec fn spec_close_row(w: WalkV, depth: nat) -> WalkV {
    let i = slot(depth) as int;
    let tables = ensure_len(w.tables, slot(depth) + 1);
    let acc = tables[i];
    WalkV {
        tables: tables.update(
            i,
            TableAccV {
                rows: if acc.row.len() > 0 {
                    acc.rows.push(acc.row)
                } else {
                    acc.rows
                },
                row: seq![],
            },
        ),
        ..w
    }
}

/// What a closed element does to the walk.
pub open spec fn walk_step(w: WalkV, n: NodeV, rels: Seq<(Seq<char>, Seq<char>)>) -> WalkV {
    let depth = count_name(n.path, "tbl"@);
    let name = n.name();
    if name == "pstyle"@ {
        WalkV { style: n.attr("val"@), ..w }
    } else if name == "ilvl"@ {
        WalkV {
            list_level: match n.attr("val"@) {
                Some(v) => match chars::parse_unsigned(v, 255) {
                    Some(x) => Some(x as u8),
                    None => None,
                },
                None => None,
            },
            ..w
        }
    } else if name == "numpr"@ {
        WalkV {
            list_level: match w.list_level {
                Some(x) => Some(x),
                None => Some(0u8),
            },
            ..w
        }
    } else if name == "b"@ {
        WalkV { bold: true, ..w }
    } else if name == "i"@ {
        WalkV { italic: true, ..w }
    } else if name == "t"@ {
        if n.own_text.len() == 0 {
            w
        } else {
            WalkV {
                runs: w.runs.push(
                    RunV {
                        text: n.own_text,
                        linked: n.under("hyperlink"@),
                        bold: w.bold,
                        italic: w.italic,
                    },
                ),
                ..w
            }
        }
    } else if name == "r"@ {
        WalkV { bold: false, italic: false, ..w }
    } else if name == "tab"@ {
        WalkV { runs: w.runs.push(plain_run(" "@)), ..w }
    } else if name == "br"@ {
        WalkV { runs: w.runs.push(plain_run("\n"@)), ..w }
    } else if name == "hyperlink"@ {
        spec_close_hyperlink(w, n, rels)
    } else if name == "p"@ {
        spec_close_paragraph(w, depth)
    } else if name == "tc"@ {
        spec_close_cell(w, depth, converters::spec_squeeze(n.text))
    } else if name == "tr"@ {
        spec_close_row(w, depth)
    } else if name == "tbl"@ {
        spec_close_table(w, depth)
    } else {
        w
    }
}

pub open spec fn walk(nodes: Seq<NodeV>, rels: Seq<(Seq<char>, Seq<char>)>) -> WalkV
    decreases nodes.len(),
{
    if nodes.len() == 0 {
        start_walk()
    } else {
        walk_step(walk(nodes.drop_last(), rels), nodes.last(), rels)
    }
}

/// The texts of the paragraphs that say anything.
pub open spec fn para_texts(nodes: Seq<NodeV>) -> Seq<Seq<char>>
    decreases nodes.len(),
{
    if nodes.len() == 0 {
        seq![]
    } else {
        let t = para_texts(nodes.drop_last());
        let s = converters::spec_squeeze(nodes.last().text);
        if nodes.last().name() == "p"@ && s.len() > 0 {
            t.push(s)
        } else {
            t
        }
    }
}

/// A paragraph for each text.
pub open spec fn text_paragraphs(texts: Seq<Seq<char>>) -> Seq<BlockV> {
    Seq::new(texts.len(), |i: int| BlockV::Paragraph(seq![SpanV::Text(texts[i])]))
}

/// The notes of a part under a heading of their own, where there are any.
pub open spec fn notes_blocks(label: Seq<char>, notes: Seq<Seq<char>>) -> Seq<BlockV> {
    if notes.len() == 0 {
        seq![]
    } else {
        seq![BlockV::Heading { level: 2, text: seq![SpanV::Text(label)] }] + text_paragraphs(notes)
    }
}

/// The document with the notes of one part.
pub open spec fn add_notes(
    bytes: Seq<u8>,
    part: Seq<char>,
    label: Seq<char>,
    d: DocumentV,
    c: CxV,
) -> (Result<DocumentV, ErrorV>, CxV) {
    let p = spec_read_part(bytes, part, c);
    match p.0 {
        Err(e) => (Err(e), p.1),
        Ok(None) => (Ok(d), p.1),
        Ok(Some(source)) => match xml::spec_fault(source, "docx"@) {
            Some(e) => (Err(e), p.1),
            None => (
                Ok(d.extended(notes_blocks(label, para_texts(xml::spec_nodes(source))))),
                p.1,
            ),
        },
    }
}

/// The text of the first heading.
pub open spec fn first_heading_text(blocks: Seq<BlockV>) -> Option<Seq<char>>
    decreases blocks.len(),
{
    if blocks.len() == 0 {
        None
    } else {
        match blocks[0] {
            BlockV::Heading { level: _, text } => Some(ir::plain(text)),
            _ => first_heading_text(blocks.skip(1)),
        }
    }
}

pub open spec fn no_body() -> WarningV {
    WarningV {
        kind: WarningKind::NoTextLayer,
        message: "the document body carried no text"@,
    }
}

/// The document once its content is complete.
pub open spec fn finish_docx(d: DocumentV) -> DocumentV {
    let t = if d.title is None {
        DocumentV { title: first_heading_text(d.blocks), ..d }
    } else {
        d
    };
    if t.blocks.len() == 0 {
        t.warned(no_body())
    } else {
        t
    }
}

/// The main part of a Word document is there, and the context after reading it is
/// as `at` says.
pub open spec fn main_part_read(bytes: Seq<u8>, pre: CxV, at: CxV) -> bool {
    let core = spec_core_properties(bytes, ir::empty_document(), pre);
    let rels = spec_relationships(bytes, "word/_rels/document.xml.rels"@, core.1);
    let main = spec_read_part(bytes, "word/document.xml"@, rels.1);
    open_fault(bytes, "docx"@) is None && (main.0 matches Ok(Some(_))) && at == main.1
}

/// What a Word document becomes, and the budget after it.
pub open spec fn docx_result(bytes: Seq<u8>, pre: CxV) -> (Result<DocumentV, ErrorV>, CxV) {
    match open_fault(bytes, "docx"@) {
        Some(e) => (Err(e), pre),
        None => {
            let core = spec_core_properties(bytes, ir::empty_document(), pre);
            let rels = spec_relationships(bytes, "word/_rels/document.xml.rels"@, core.1);
            let main = spec_read_part(bytes, "word/document.xml"@, rels.1);
            match main.0 {
                Err(e) => (Err(e), main.1),
                Ok(None) => (
                    Err(
                        ErrorV::Malformed {
                            format: "docx"@,
                            message: "no word/document.xml — not a Word document"@,
                        },
                    ),
                    main.1,
                ),
                Ok(Some(source)) => match xml::spec_fault(source, "docx"@) {
                    Some(e) => (Err(e), main.1),
                    None => {
                        let body = DocumentV {
                            blocks: walk(xml::spec_nodes(source), rels.0).blocks,
                            ..core.0
                        };
                        let foot = add_notes(
                            bytes,
                            "word/footnotes.xml"@,
                            "Footnotes"@,
                            body,
                            main.1,
                        );
                        match foot.0 {
                            Err(e) => (Err(e), foot.1),
                            Ok(d) => {
                                let end = add_notes(
                                    bytes,
                                    "word/endnotes.xml"@,
                                    "Endnotes"@,
                                    d,
                                    foot.1,
                                );
                                match end.0 {
                                    Err(e) => (Err(e), end.1),
                                    Ok(d) => (Ok(finish_docx(d)), end.1),
                                }
                            },
                        }
                    },
                },
            }
        },
    }
}

fn count_in_path(path: &Vec<String>, name: &str) -> (r: usize)
    ensures
        r == count_name(chars::texts(path@), name@),
        r <= path@.len(),
{
    let ghost v = chars::texts(path@);
    let mut n: usize = 0;
    let mut i: usize = 0;
    while i < path.len()
        invariant
            i <= path@.len(),
            n <= i,
            v == chars::texts(path@),
            n == count_name(v.take(i as int), name@),
        decreases path@.len() - i,
    {
        assert(v.take(i + 1).drop_last() =~= v.take(i as int));
        if text::eq(&path[i], name) {
            n += 1;
        }
        i += 1;
    }
    assert(v.take(v.len() as int) =~= v);
    n
}

fn split_link(s: &str) -> (r: Option<(String, String)>)
    ensures
        r is Some == spec_split_link(s@) is Some,
        r matches Some(p) ==> spec_split_link(s@) == Some((p.0@, p.1@)),
{
    match text::strip_prefix(s, "\u{1}") {
        Some(rest) => text::split_once(&rest, "\u{1}"),
        None => None,
    }
}

fn runs_to_plain(runs: &Vec<Run>) -> (r: String)
    ensures
        r@ == spec_runs_to_plain(runs_view(runs@)),
{
    let ghost v = runs_view(runs@);
    let mut out = String::new();
    let mut i: usize = 0;
    while i < runs.len()
        invariant
            i <= runs@.len(),
            v == runs_view(runs@),
            out@ == concat_unlinked(v.take(i as int)),
        decreases runs@.len() - i,
    {
        assert(v.take(i + 1).drop_last() =~= v.take(i as int));
        match split_link(&runs[i].text) {
            Some(p) => out.append(p.1.as_str()),
            None => out.append(runs[i].text.as_str()),
        }
        i += 1;
    }
    assert(v.take(v.len() as int) =~= v);
    squeeze(&out)
}

fn runs_to_inline(runs: &Vec<Run>) -> (r: Inline)
    ensures
        r@ == spec_runs_to_inline(runs_view(runs@)),
{
    let ghost v = runs_view(runs@);
    let mut out = Inline::empty();
    let mut i: usize = 0;
    while i < runs.len()
        invariant
            i <= runs@.len(),
            v == runs_view(runs@),
            out@ == spec_runs_to_inline(v.take(i as int)),
        decreases runs@.len() - i,
    {
        assert(v.take(i + 1).drop_last() =~= v.take(i as int));
        let r = &runs[i];
        match split_link(&r.text) {
            Some(p) => out.push(Span::Link { text: Inline::text(p.1), href: p.0 }),
            None => {
                if !text::is_empty(&r.text) {
                    if r.bold {
                        out.push(Span::Strong(Inline::text(r.text.clone())));
                    } else if r.italic {
                        out.push(Span::Emphasis(Inline::text(r.text.clone())));
                    } else {
                        out.push(Span::Text(r.text.clone()));
                    }
                }
            },
        }
        i += 1;
    }
    assert(v.take(v.len() as int) =~= v);
    out
}

fn normal_style(s: &str) -> (r: String)
    ensures
        r@ == style_key(s@),
{
    let a = text::lower(s);
    let b = text::replace(&a, " ", "");
    let c = text::replace(&b, "-", "");
    text::replace(&c, "_", "")
}

fn drop_digits(s: &str) -> (r: String)
    ensures
        r@ == trim_digits(s@),
{
    let v = text::to_chars(s);
    let mut j: usize = v.len();
    assert(v@.take(j as int) =~= v@);
    while 0 < j && text::is_digit(v[j - 1])
        invariant
            j <= v@.len(),
            trim_digits(v@) == trim_digits(v@.take(j as int)),
        decreases j,
    {
        assert(v@.take(j as int).drop_last() =~= v@.take(j - 1));
        j -= 1;
    }
    assert(v@.subrange(0, j as int) =~= v@.take(j as int));
    text::slice(&v, 0, j)
}

/// Whether a style is a list's, and then whether the list is ordered.
pub fn list_style(style: &Option<String>) -> (r: Option<bool>)
    ensures
        r == spec_list_style(chars::opt(*style)),
{
    match style {
        Some(s) => {
            let n = normal_style(s);
            let k = drop_digits(&n);
            if text::eq(&k, "listnumber") || text::eq(&k, "listnum") || text::eq(
                &k,
                "numberedlist",
            ) {
                Some(true)
            } else if text::eq(&k, "listbullet") || text::eq(&k, "listparagraph") || text::eq(
                &k,
                "list",
            ) || text::eq(&k, "bulletlist") || text::eq(&k, "bullet") {
                Some(false)
            } else {
                None
            }
        },
        None => None,
    }
}

/// The heading level that a style stands for.
pub fn heading_level(style: &Option<String>) -> (r: Option<u8>)
    ensures
        r == spec_heading_level(chars::opt(*style)),
{
    match style {
        Some(s) => {
            let k = normal_style(s);
            if text::eq(&k, "title") {
                return Some(1);
            }
            if text::eq(&k, "subtitle") {
                return Some(2);
            }
            match text::strip_prefix(&k, "heading") {
                Some(d) => match text::parse_unsigned(&d, 255) {
                    Some(n) => if 1 <= n && n <= 6 {
                        Some(n as u8)
                    } else {
                        None
                    },
                    None => None,
                },
                None => None,
            }
        },
        None => None,
    }
}

fn push_acc_cell(acc: &mut TableAcc, cell: Inline)
    ensures
        final(acc)@ == (TableAccV { row: old(acc)@.row.push(cell@), ..old(acc)@ }),
{
    let ghost before = acc.row@;
    acc.row.push(cell);
    assert(ir::cells_view(acc.row@) =~= ir::cells_view(before).push(cell@));
}

fn close_acc_row(acc: &mut TableAcc)
    ensures
        final(acc)@ == (TableAccV {
            rows: if old(acc)@.row.len() > 0 {
                old(acc)@.rows.push(old(acc)@.row)
            } else {
                old(acc)@.rows
            },
            row: seq![],
        }),
{
    let mut row: Vec<Inline> = Vec::new();
    std::mem::swap(&mut row, &mut acc.row);
    assert(ir::cells_view(acc.row@) =~= seq![]);
    if row.len() > 0 {
        let ghost before = acc.rows@;
        acc.rows.push(row);
        assert(ir::rows_view(acc.rows@) =~= ir::rows_view(before).push(ir::cells_view(row@)));
    }
}

fn new_acc() -> (r: TableAcc)
    ensures
        r@ == empty_acc(),
{
    let r = TableAcc { rows: Vec::new(), row: Vec::new() };
    assert(r@ =~= empty_acc());
    r
}

/// A table with its first row as the header.
fn table_of(rows: Vec<Vec<Inline>>) -> (r: Block)
    requires
        rows@.len() > 0,
    ensures
        r@ == headed_table(ir::rows_view(rows@)),
{
    let ghost all = ir::rows_view(rows@);
    let mut rows = rows;
    let header = rows.remove(0);
    assert(ir::rows_view(rows@) =~= all.skip(1));
    assert(ir::cells_view(header@) == all[0]);
    Block::Table(Table { caption: None, header: Some(header), rows })
}

impl DocxWalker {
    fn start() -> (r: Self)
        ensures
            r@ == start_walk(),
    {
        let r = DocxWalker {
            blocks: Vec::new(),
            runs: Vec::new(),
            style: None,
            list_level: None,
            pending_bold: false,
            pending_italic: false,
            pending_cell: None,
            tables: Vec::new(),
        };
        assert(r@ =~= start_walk());
        r
    }

    fn push_run(&mut self, r: Run)
        ensures
            final(self)@ == (WalkV { runs: old(self)@.runs.push(r@), ..old(self)@ }),
    {
        let ghost before = self.runs@;
        self.runs.push(r);
        assert(runs_view(self.runs@) =~= runs_view(before).push(r@));
    }

    fn push_block(&mut self, b: Block)
        ensures
            final(self)@ == (WalkV { blocks: old(self)@.blocks.push(b@), ..old(self)@ }),
    {
        proof {
            ir::lemma_blocks_push(self.blocks@, b);
        }
        self.blocks.push(b);
    }

    fn visit(&mut self, n: &Node, rels: &Vec<(String, String)>)
        ensures
            final(self)@ == walk_step(old(self)@, n@, ir::pairs_view(rels@)),
    {
        let depth: usize = count_in_path(&n.path, "tbl");
        let name = n.name();
        if text::eq(name, "pstyle") {
            self.style = n.attr("val");
        } else if text::eq(name, "ilvl") {
            self.list_level =
            match n.attr("val") {
                Some(v) => match text::parse_unsigned(&v, 255) {
                    Some(x) => Some(x as u8),
                    None => None,
                },
                None => None,
            };
        } else if text::eq(name, "numpr") {
            if self.list_level.is_none() {
                self.list_level = Some(0);
            }
        } else if text::eq(name, "b") {
            self.pending_bold = true;
        } else if text::eq(name, "i") {
            self.pending_italic = true;
        } else if text::eq(name, "t") {
            if !text::is_empty(&n.own_text) {
                let r = Run {
                    text: n.own_text.clone(),
                    linked: n.under("hyperlink"),
                    bold: self.pending_bold,
                    italic: self.pending_italic,
                };
                self.push_run(r);
            }
        } else if text::eq(name, "r") {
            self.pending_bold = false;
            self.pending_italic = false;
        } else if text::eq(name, "tab") {
            self.push_run(Run { text: " ".to_owned(), linked: false, bold: false, italic: false });
        } else if text::eq(name, "br") {
            self.push_run(Run { text: "\n".to_owned(), linked: false, bold: false, italic: false });
        } else if text::eq(name, "hyperlink") {
            self.close_hyperlink(n, rels);
        } else if text::eq(name, "p") {
            self.close_paragraph(depth);
        } else if text::eq(name, "tc") {
            let fallback = squeeze(&n.text);
            self.close_cell(depth, fallback);
        } else if text::eq(name, "tr") {
            self.close_row(depth);
        } else if text::eq(name, "tbl") {
            self.close_table(depth);
        }
    }

    fn close_hyperlink(&mut self, n: &Node, rels: &Vec<(String, String)>)
        ensures
            final(self)@ == spec_close_hyperlink(old(self)@, n@, ir::pairs_view(rels@)),
    {
        let id = match n.attr("id") {
            Some(id) => id,
            None => {
                return ;
            },
        };
        let target = match find_pair(rels, &id) {
            Some(t) => t,
            None => {
                return ;
            },
        };
        let ghost v = runs_view(self.runs@);
        let mut start: usize = self.runs.len();
        assert(v.take(start as int) =~= v);
        while start > 0 && self.runs[start - 1].linked
            invariant
                start <= self.runs@.len(),
                v == runs_view(self.runs@),
                self@ == old(self)@,
                link_start(v) == link_start(v.take(start as int)),
            decreases start,
        {
            assert(v.take(start as int).drop_last() =~= v.take(start - 1));
            start -= 1;
        }
        if start >= self.runs.len() {
            return ;
        }
        let ghost tail = v.skip(start as int);
        let mut label = String::new();
        let mut i: usize = start;
        assert(tail.take(0) =~= seq![]);
        while i < self.runs.len()
            invariant
                start <= i <= self.runs@.len(),
                v == runs_view(self.runs@),
                self@ == old(self)@,
                tail == v.skip(start as int),
                label@ == concat_runs(tail.take(i - start)),
            decreases self.runs@.len() - i,
        {
            assert(tail.take(i - start + 1).drop_last() =~= tail.take(i - start));
            label.append(self.runs[i].text.as_str());
            i += 1;
        }
        assert(tail.take(tail.len() as int) =~= tail);
        self.runs.truncate(start);
        assert(runs_view(self.runs@) =~= v.take(start as int));
        let mut t = text::cat3("\u{1}", &target, "\u{1}");
        t.append(label.as_str());
        self.push_run(Run { text: t, linked: false, bold: false, italic: false });
    }

    fn close_paragraph(&mut self, table_depth: usize)
        ensures
            final(self)@ == spec_close_paragraph(old(self)@, table_depth as nat),
    {
        let mut runs: Vec<Run> = Vec::new();
        std::mem::swap(&mut runs, &mut self.runs);
        assert(runs_view(self.runs@) =~= seq![]);
        let style = self.style.take();
        let level = self.list_level.take();
        if table_depth > 0 {
            let t = runs_to_plain(&runs);
            if !text::is_empty(&t) {
                let joined = match self.pending_cell.take() {
                    Some(c) => text::cat3(&c, "\n", &t),
                    None => t,
                };
                self.pending_cell = Some(joined);
            }
            return ;
        }
        let inline = runs_to_inline(&runs);
        if inline.is_blank() {
            return ;
        }
        if let Some(h) = heading_level(&style) {
            self.push_block(Block::Heading { level: h, text: inline });
            return ;
        }
        match list_style(&style) {
            Some(ordered) => self.push_item(ordered, inline),
            None => {
                if level.is_some() {
                    self.push_item(false, inline);
                } else {
                    self.push_block(Block::Paragraph(inline));
                }
            },
        }
    }

    fn push_item(&mut self, ordered: bool, inline: Inline)
        ensures
            final(self)@ == (WalkV {
                blocks: add_item(old(self)@.blocks, ordered, inline@),
                ..old(self)@
            }),
    {
        let ghost b0 = self.blocks@;
        let ghost v0 = ir::blocks_view(b0);
        let mut item: Vec<Block> = Vec::new();
        item.push(Block::Paragraph(inline));
        assert(ir::blocks_view(item@) =~= seq![BlockV::Paragraph(inline@)]);
        match self.blocks.pop() {
            Some(Block::List { ordered: o, items }) => {
                assert(ir::blocks_view(self.blocks@) =~= v0.drop_last());
                let ghost i0 = items@;
                let mut items = items;
                items.push(item);
                assert(ir::items_view(items@) =~= ir::items_view(i0).push(
                    ir::blocks_view(item@),
                ));
                self.push_block(Block::List { ordered: o, items });
            },
            Some(other) => {
                assert(ir::blocks_view(self.blocks@) =~= v0.drop_last());
                self.push_block(other);
                assert(self@.blocks =~= v0);
                let mut items: Vec<Vec<Block>> = Vec::new();
                items.push(item);
                assert(ir::items_view(items@) =~= seq![ir::blocks_view(item@)]);
                self.push_block(Block::List { ordered, items });
            },
            None => {
                let mut items: Vec<Vec<Block>> = Vec::new();
                items.push(item);
                assert(ir::items_view(items@) =~= seq![ir::blocks_view(item@)]);
                self.push_block(Block::List { ordered, items });
            },
        }
    }

    fn table_at(&mut self, depth: usize) -> (i: usize)
        ensures
            i == slot(depth as nat),
            i < final(self).tables@.len(),
            final(self)@ == (WalkV {
                tables: ensure_len(old(self)@.tables, slot(depth as nat) + 1),
                ..old(self)@
            }),
    {
        let i: usize = if depth == 0 {
            0
        } else {
            depth - 1
        };
        let ghost t0 = accs_view(self.tables@);
        while self.tables.len() <= i
            invariant
                i == slot(depth as nat),
                t0 == old(self)@.tables,
                self.tables@.len() >= t0.len(),
                self.tables@.len() > t0.len() ==> self.tables@.len() <= i + 1,
                forall|k: int|
                    0 <= k < self.tables@.len() ==> (#[trigger] self.tables@[k])@ == (if k
                        < t0.len() {
                        t0[k]
                    } else {
                        empty_acc()
                    }),
                self@ == (WalkV { tables: accs_view(self.tables@), ..old(self)@ }),
            decreases i + 1 - self.tables@.len(),
        {
            let a = new_acc();
            self.tables.push(a);
        }
        assert(accs_view(self.tables@) =~= ensure_len(t0, slot(depth as nat) + 1));
        i
    }

    fn close_cell(&mut self, depth: usize, fallback: String)
        ensures
            final(self)@ == spec_close_cell(old(self)@, depth as nat, fallback@),
    {
        let t = match self.pending_cell.take() {
            Some(c) => if text::is_empty(&c) {
                fallback
            } else {
                c
            },
            None => fallback,
        };
        let i: usize = self.table_at(depth);
        let ghost t0 = self.tables@;
        push_acc_cell(&mut self.tables[i], Inline::text(t));
        assert(accs_view(self.tables@) =~= accs_view(t0).update(
            i as int,
            self.tables@[i as int]@,
        ));
    }

    fn close_row(&mut self, depth: usize)
        ensures
            final(self)@ == spec_close_row(old(self)@, depth as nat),
    {
        let i: usize = self.table_at(depth);
        let ghost t0 = self.tables@;
        close_acc_row(&mut self.tables[i]);
        assert(accs_view(self.tables@) =~= accs_view(t0).update(
            i as int,
            self.tables@[i as int]@,
        ));
    }

    fn close_table(&mut self, depth: usize)
        ensures
            final(self)@ == spec_close_table(old(self)@, depth as nat),
    {
        let i: usize = if depth == 0 {
            0
        } else {
            depth - 1
        };
        if i >= self.tables.len() {
            return ;
        }
        let ghost t0 = self.tables@;
        let mut acc = new_acc();
        std::mem::swap(&mut acc, &mut self.tables[i]);
        assert(accs_view(self.tables@) =~= accs_view(t0).update(i as int, empty_acc()));
        if acc.rows.len() > 0 {
            let b = table_of(acc.rows);
            self.push_block(b);
        }
    }
}

/// The blocks of a Word document's elements, with its relationships at hand.
pub fn docx_blocks(nodes: &Vec<Node>, rels: &Vec<(String, String)>) -> (r: Vec<Block>)
    ensures
        ir::blocks_view(r@) == walk(xml::nodes_view(nodes@), ir::pairs_view(rels@)).blocks,
{
    let ghost v = xml::nodes_view(nodes@);
    let mut w = DocxWalker::start();
    let mut i: usize = 0;
    while i < nodes.len()
        invariant
            i <= nodes@.len(),
            v == xml::nodes_view(nodes@),
            w@ == walk(v.take(i as int), ir::pairs_view(rels@)),
        decreases nodes@.len() - i,
    {
        assert(v.take(i + 1).drop_last() =~= v.take(i as int));
        w.visit(&nodes[i], rels);
        i += 1;
    }
    assert(v.take(v.len() as int) =~= v);
    w.blocks
}

/// The texts of the paragraphs that say anything.
pub fn note_texts(nodes: &Vec<Node>) -> (r: Vec<String>)
    ensures
        chars::texts(r@) == para_texts(xml::nodes_view(nodes@)),
{
    let ghost v = xml::nodes_view(nodes@);
    let mut out: Vec<String> = Vec::new();
    let mut i: usize = 0;
    assert(chars::texts(out@) =~= seq![]);
    while i < nodes.len()
        invariant
            i <= nodes@.len(),
            v == xml::nodes_view(nodes@),
            chars::texts(out@) == para_texts(v.take(i as int)),
        decreases nodes@.len() - i,
    {
        assert(v.take(i + 1).drop_last() =~= v.take(i as int));
        if text::eq(nodes[i].name(), "p") {
            let t = squeeze(&nodes[i].text);
            if !text::is_empty(&t) {
                proof {
                    chars::lemma_texts_push(out@, t);
                }
                out.push(t);
            }
        }
        i += 1;
    }
    assert(v.take(v.len() as int) =~= v);
    out
}

fn push_paragraphs(doc: &mut Document, texts: &Vec<String>)
    ensures
        final(doc)@ == old(doc)@.extended(text_paragraphs(chars::texts(texts@))),
{
    let ghost want = text_paragraphs(chars::texts(texts@));
    let ghost d0 = doc@;
    let mut i: usize = 0;
    assert(doc@ =~= d0.extended(want.take(0)));
    while i < texts.len()
        invariant
            i <= texts@.len(),
            want == text_paragraphs(chars::texts(texts@)),
            doc@ == d0.extended(want.take(i as int)),
        decreases texts@.len() - i,
    {
        doc.push(Block::Paragraph(Inline::text(texts[i].clone())));
        i += 1;
        assert(doc@.blocks =~= d0.blocks + want.take(i as int));
    }
    assert(want.take(want.len() as int) =~= want);
}

fn push_notes(
    zip: &mut Archive,
    part: &str,
    label: &str,
    doc: &mut Document,
    cx: &mut ConvertCx<'_>,
) -> (r: Result<(), ConvertError>)
    ensures
        archive::archive_bytes(*final(zip)) == archive::archive_bytes(*old(zip)),
        *final(final(cx).budget) == *final(old(cx).budget),
        final(cx).start() == old(cx).start(),
        old(cx)@.grows_to(final(cx)@),
        ({
            let want = add_notes(
                archive::archive_bytes(*old(zip)),
                part@,
                label@,
                old(doc)@,
                old(cx)@,
            );
            &&& final(cx)@ == want.1
            &&& match r {
                Ok(()) => want.0 == Ok::<DocumentV, ErrorV>(final(doc)@),
                Err(e) => want.0 == Err::<DocumentV, ErrorV>(e@),
            }
        }),
{
    let ghost d0 = doc@;
    match read_part(zip, part, cx) {
        Err(e) => Err(e),
        Ok(None) => Ok(()),
        Ok(Some(source)) => {
            let (nodes, fault) = read_nodes(&source, "docx");
            if let Some(e) = fault {
                return Err(e);
            }
            let notes = note_texts(&nodes);
            if notes.len() > 0 {
                doc.push(Block::Heading { level: 2, text: Inline::text(label) });
                push_paragraphs(doc, &notes);
            }
            assert(doc@.blocks =~= d0.blocks + notes_blocks(label@, chars::texts(notes@)));
            Ok(())
        },
    }
}

fn find_heading(blocks: &Vec<Block>) -> (r: Option<String>)
    ensures
        chars::opt(r) == first_heading_text(ir::blocks_view(blocks@)),
{
    let ghost v = ir::blocks_view(blocks@);
    let mut i: usize = 0;
    assert(v.skip(0) =~= v);
    while i < blocks.len()
        invariant
            i <= blocks@.len(),
            v == ir::blocks_view(blocks@),
            first_heading_text(v) == first_heading_text(v.skip(i as int)),
        decreases blocks@.len() - i,
    {
        assert(v.skip(i as int)[0] == ir::block_view(blocks@[i as int]));
        assert(v.skip(i as int).skip(1) =~= v.skip(i + 1));
        if let Block::Heading { level: _, text } = &blocks[i] {
            return Some(text.to_plain());
        }
        i += 1;
    }
    None
}

impl Converter for DocxConverter {
    open spec fn named(&self) -> Seq<char> {
        "docx"@
    }

    open spec fn ranked(&self) -> i32 {
        0
    }

    open spec fn takes(&self, probe: ProbeV, info: StreamInfoV) -> bool {
        docx_takes(probe, info)
    }

    open spec fn converts(
        &self,
        bytes: Seq<u8>,
        info: StreamInfoV,
        pre: CxV,
        post: CxV,
        r: Result<DocumentV, ErrorV>,
    ) -> bool {
        (r, post) == docx_result(bytes, pre) || registry::late(pre, r) && main_part_read(
            bytes,
            pre,
            post,
        )
    }

    fn name(&self) -> (r: &'static str) {
        "docx"
    }

    fn priority(&self) -> (r: i32) {
        PRIORITY_SPECIFIC
    }

    fn accepts(&self, probe: &Probe<'_>, info: &StreamInfo) -> (r: bool) {
        detect::has_zip_magic(probe) && (info.is_ext("docx") || info.is_mime(
            "application/vnd.openxmlformats-officedocument.wordprocessingml.document",
        ))
    }

    fn convert(&self, bytes: &[u8], info: &StreamInfo, cx: &mut ConvertCx<'_>) -> (r: Result<
        Document,
        ConvertError,
    >) {
        let mut zip = match open(bytes, "docx") {
            Ok(z) => z,
            Err(e) => {
                return Err(e);
            },
        };
        let mut doc = Document::new();
        core_properties(&mut zip, &mut doc, cx);
        let rels = relationships(&mut zip, "word/_rels/document.xml.rels", cx);
        let source = match read_part(&mut zip, "word/document.xml", cx) {
            Err(e) => {
                return Err(e);
            },
            Ok(None) => {
                return Err(
                    ConvertError::Malformed {
                        format: "docx",
                        message: "no word/document.xml — not a Word document".to_owned(),
                    },
                );
            },
            Ok(Some(s)) => s,
        };
        if let Err(e) = cx.budget().check_deadline() {
            return Err(e);
        }
        let (nodes, fault) = read_nodes(&source, "docx");
        if let Some(e) = fault {
            return Err(e);
        }
        doc.blocks = docx_blocks(&nodes, &rels);
        if let Err(e) = push_notes(&mut zip, "word/footnotes.xml", "Footnotes", &mut doc, cx) {
            return Err(e);
        }
        if let Err(e) = push_notes(&mut zip, "word/endnotes.xml", "Endnotes", &mut doc, cx) {
            return Err(e);
        }
        if doc.title.is_none() {
            doc.title = find_heading(&doc.blocks);
        }
        if doc.blocks.len() == 0 {
            doc.warn(Warning::new(WarningKind::NoTextLayer, "the document body carried no text"));
        }
        Ok(doc)
    }
}

/// PowerPoint presentations.
pub struct PptxConverter;

pub open spec fn pptx_takes(probe: ProbeV, info: StreamInfoV) -> bool {
    probe.starts_with(detect::zip_magic()) && (info.is_ext("pptx"@) || info.is_mime(
        "application/vnd.openxmlformats-officedocument.presentationml.presentation"@,
    ))
}

/// The number in a slide part's name.
pub open spec fn spec_slide_number(name: Seq<char>) -> Option<nat> {
    let prefix = "ppt/slides/slide"@;
    if chars::starts_with(name, prefix) {
        let rest = name.skip(prefix.len() as int);
        if chars::ends_with(rest, ".xml"@) {
            chars::parse_unsigned(rest.take(rest.len() - ".xml"@.len()), u32::MAX as nat)
        } else {
            None
        }
    } else {
        None
    }
}

/// A slide's number and the name of its part.
pub type SlideV = (nat, Seq<char>);

/// How many slides come before a new one with number `k`: those with a smaller
/// number, and earlier ones with the same.
pub open spec fn slide_place(s: Seq<SlideV>, k: nat) -> int
    decreases s.len(),
{
    if s.len() > 0 && s[0].0 <= k {
        1 + slide_place(s.skip(1), k)
    } else {
        0
    }
}

/// The slides of a container by number.
pub open spec fn slides_of(names: Seq<Seq<char>>) -> Seq<SlideV>
    decreases names.len(),
{
    if names.len() == 0 {
        seq![]
    } else {
        let t = slides_of(names.drop_last());
        match spec_slide_number(names.last()) {
            Some(k) => t.insert(slide_place(t, k), (k, names.last())),
            None => t,
        }
    }
}

pub proof fn lemma_slide_place(s: Seq<SlideV>, k: nat)
    ensures
        0 <= slide_place(s, k) <= s.len(),
        forall|i: int| 0 <= i < slide_place(s, k) ==> (#[trigger] s[i]).0 <= k,
        slide_place(s, k) < s.len() ==> s[slide_place(s, k)].0 > k,
    decreases s.len(),
{
    if s.len() > 0 && s[0].0 <= k {
        lemma_slide_place(s.skip(1), k);
        assert forall|i: int| 0 <= i < slide_place(s, k) implies (#[trigger] s[i]).0 <= k by {
            if i > 0 {
                assert(s[i] == s.skip(1)[i - 1]);
            }
        }
    }
}

/// Slides come out in the order of their numbers, whatever order the container
/// lists them in.
pub proof fn slides_are_in_order(names: Seq<Seq<char>>)
    ensures
        forall|i: int, j: int|
            0 <= i < j < slides_of(names).len() ==> (#[trigger] slides_of(names)[i]).0 <= (
            #[trigger] slides_of(names)[j]).0,
    decreases names.len(),
{
    if names.len() > 0 {
        slides_are_in_order(names.drop_last());
        let t = slides_of(names.drop_last());
        if let Some(k) = spec_slide_number(names.last()) {
            lemma_slide_place(t, k);
            let p = slide_place(t, k);
            let u = slides_of(names);
            assert forall|i: int, j: int| 0 <= i < j < u.len() implies (#[trigger] u[i]).0 <= (
            #[trigger] u[j]).0 by {
                if i < p && j > p {
                    assert(t[i].0 <= t[j - 1].0);
                } else if i == p && j > p {
                    assert(p == j - 1 || t[p].0 <= t[j - 1].0);
                } else if i > p {
                    assert(t[i - 1].0 <= t[j - 1].0);
                } else if j < p {
                    assert(t[i].0 <= t[j].0);
                }
            }
        }
    }
}

/// How far the reading of a slide has got.
#[verifier::ext_equal]
pub struct SlideAccV {
    pub blocks: Seq<BlockV>,
    pub table: TableAccV,
}

pub open spec fn slide_step(s: SlideAccV, n: NodeV) -> SlideAccV {
    let name = n.name();
    let t = converters::spec_squeeze(n.text);
    if name == "p"@ {
        if !n.under("tbl"@) && t.len() > 0 {
            SlideAccV { blocks: s.blocks.push(BlockV::Paragraph(seq![SpanV::Text(t)])), ..s }
        } else {
            s
        }
    } else if name == "tc"@ {
        SlideAccV {
            table: TableAccV { row: s.table.row.push(seq![SpanV::Text(t)]), ..s.table },
            ..s
        }
    } else if name == "tr"@ {
        SlideAccV {
            table: TableAccV {
                rows: if s.table.row.len() > 0 {
                    s.table.rows.push(s.table.row)
                } else {
                    s.table.rows
                },
                row: seq![],
            },
            ..s
        }
    } else if name == "tbl"@ && s.table.rows.len() > 0 {
        SlideAccV {
            blocks: s.blocks.push(headed_table(s.table.rows)),
            table: TableAccV { rows: seq![], ..s.table },
        }
    } else {
        s
    }
}

pub open spec fn slide_run(nodes: Seq<NodeV>) -> SlideAccV
    decreases nodes.len(),
{
    if nodes.len() == 0 {
        SlideAccV { blocks: seq![], table: empty_acc() }
    } else {
        slide_step(slide_run(nodes.drop_last()), nodes.last())
    }
}

pub open spec fn slide_heading(k: nat) -> BlockV {
    BlockV::Heading { level: 2, text: seq![SpanV::Text("Slide "@ + chars::decimal(k))] }
}

/// Speaker notes, quoted under a label.
pub open spec fn notes_quote(texts: Seq<Seq<char>>) -> BlockV {
    BlockV::Quote(
        seq![
            BlockV::Paragraph(seq![SpanV::Strong(seq![SpanV::Text("Speaker notes"@)])]),
        ] + text_paragraphs(texts),
    )
}

pub open spec fn notes_part(k: nat) -> Seq<char> {
    "ppt/notesSlides/notesSlide"@ + chars::decimal(k) + ".xml"@
}

/// The document with the notes of one slide.
pub open spec fn with_speaker_notes(bytes: Seq<u8>, k: nat, d: DocumentV, c: CxV) -> (
    Result<DocumentV, ErrorV>,
    CxV,
) {
    let p = spec_read_part(bytes, notes_part(k), c);
    match p.0 {
        Err(e) => (Err(e), p.1),
        Ok(None) => (Ok(d), p.1),
        Ok(Some(source)) => match xml::spec_fault(source, "pptx"@) {
            Some(e) => (Err(e), p.1),
            None => {
                let texts = para_texts(xml::spec_nodes(source));
                (
                    Ok(
                        if texts.len() == 0 {
                            d
                        } else {
                            d.pushed(notes_quote(texts))
                        },
                    ),
                    p.1,
                )
            },
        },
    }
}

/// The document with one slide; a slide that is not there is skipped.
pub open spec fn with_slide(bytes: Seq<u8>, s: SlideV, d: DocumentV, c: CxV) -> (
    Result<DocumentV, ErrorV>,
    CxV,
) {
    let p = spec_read_part(bytes, s.1, c);
    match p.0 {
        Err(e) => (Err(e), p.1),
        Ok(None) => (Ok(d), p.1),
        Ok(Some(source)) => match xml::spec_fault(source, "pptx"@) {
            Some(e) => (Err(e), p.1),
            None => with_speaker_notes(
                bytes,
                s.0,
                d.pushed(slide_heading(s.0)).extended(slide_run(xml::spec_nodes(source)).blocks),
                p.1,
            ),
        },
    }
}

/// The document with the slides from the `i`-th on.
pub open spec fn with_slides(
    bytes: Seq<u8>,
    slides: Seq<SlideV>,
    i: int,
    d: DocumentV,
    c: CxV,
) -> (Result<DocumentV, ErrorV>, CxV)
    decreases slides.len() - i,
{
    if i >= slides.len() {
        (Ok(d), c)
    } else {
        let s = with_slide(bytes, slides[i], d, c);
        match s.0 {
            Err(e) => s,
            Ok(e) => with_slides(bytes, slides, i + 1, e, s.1),
        }
    }
}

/// The clock is read before the `i`-th slide or a later one, with the context as
/// `at` says.
pub open spec fn slide_reached(
    bytes: Seq<u8>,
    slides: Seq<SlideV>,
    i: int,
    d: DocumentV,
    c: CxV,
    at: CxV,
) -> bool
    decreases slides.len() - i,
{
    0 <= i < slides.len() && (at == c || ({
        let s = with_slide(bytes, slides[i], d, c);
        s.0 matches Ok(e) && slide_reached(bytes, slides, i + 1, e, s.1, at)
    }))
}

/// The text of the first paragraph that says anything.
pub open spec fn first_paragraph_text(blocks: Seq<BlockV>) -> Option<Seq<char>>
    decreases blocks.len(),
{
    if blocks.len() == 0 {
        None
    } else {
        match blocks[0] {
            BlockV::Paragraph(t) => if chars::is_blank(ir::plain(t)) {
                first_paragraph_text(blocks.skip(1))
            } else {
                Some(ir::plain(t))
            },
            _ => first_paragraph_text(blocks.skip(1)),
        }
    }
}

/// What a presentation becomes, and the budget after it.
pub open spec fn pptx_result(bytes: Seq<u8>, pre: CxV) -> (Result<DocumentV, ErrorV>, CxV) {
    match open_fault(bytes, "pptx"@) {
        Some(e) => (Err(e), pre),
        None => {
            let core = spec_core_properties(bytes, ir::empty_document(), pre);
            let slides = slides_of(archive::archive_names(bytes));
            if slides.len() == 0 {
                (
                    Err(
                        ErrorV::Malformed {
                            format: "pptx"@,
                            message: "no ppt/slides/slideN.xml parts — not a presentation"@,
                        },
                    ),
                    core.1,
                )
            } else {
                let all = with_slides(bytes, slides, 0, core.0, core.1);
                match all.0 {
                    Err(e) => all,
                    Ok(d) => (
                        Ok(
                            if d.title is None {
                                DocumentV { title: first_paragraph_text(d.blocks), ..d }
                            } else {
                                d
                            },
                        ),
                        all.1,
                    ),
                }
            }
        },
    }
}

fn slide_number(name: &str) -> (r: Option<u32>)
    ensures
        r matches Some(k) ==> spec_slide_number(name@) == Some(k as nat),
        r is None ==> spec_slide_number(name@) is None,
{
    match text::strip_prefix(name, "ppt/slides/slide") {
        Some(rest) => match text::strip_suffix(&rest, ".xml") {
            Some(d) => text::parse_unsigned(&d, u32::MAX),
            None => None,
        },
        None => None,
    }
}

pub open spec fn slides_view(s: Seq<(u32, String)>) -> Seq<SlideV> {
    Seq::new(s.len(), |i: int| (s[i].0 as nat, s[i].1@))
}

/// The slides among the parts of a container, by number.
pub fn find_slides(names: &Vec<String>) -> (r: Vec<(u32, String)>)
    ensures
        slides_view(r@) == slides_of(chars::texts(names@)),
{
    let ghost v = chars::texts(names@);
    let mut out: Vec<(u32, String)> = Vec::new();
    let mut i: usize = 0;
    assert(slides_view(out@) =~= seq![]);
    while i < names.len()
        invariant
            i <= names@.len(),
            v == chars::texts(names@),
            slides_view(out@) == slides_of(v.take(i as int)),
        decreases names@.len() - i,
    {
        assert(v.take(i + 1).drop_last() =~= v.take(i as int));
        assert(v.take(i + 1).last() == names@[i as int]@);
        if let Some(k) = slide_number(&names[i]) {
            let ghost s = slides_view(out@);
            let mut p: usize = 0;
            assert(s.skip(0) =~= s);
            while p < out.len() && out[p].0 <= k
                invariant
                    p <= out@.len(),
                    s == slides_view(out@),
                    slide_place(s, k as nat) == p + slide_place(s.skip(p as int), k as nat),
                decreases out@.len() - p,
            {
                assert(s.skip(p as int)[0] == s[p as int]);
                assert(s.skip(p as int).skip(1) =~= s.skip(p + 1));
                p += 1;
            }
            assert(slide_place(s.skip(p as int), k as nat) == 0) by {
                if p < s.len() {
                    assert(s.skip(p as int)[0] == s[p as int]);
                }
            }
            let x = (k, names[i].clone());
            out.insert(p, x);
            assert(slides_view(out@) =~= s.insert(p as int, (k as nat, x.1@)));
        }
        i += 1;
    }
    assert(v.take(v.len() as int) =~= v);
    out
}

/// The blocks of a slide's elements.
pub fn slide_blocks(nodes: &Vec<Node>) -> (r: Vec<Block>)
    ensures
        ir::blocks_view(r@) == slide_run(xml::nodes_view(nodes@)).blocks,
{
    let ghost v = xml::nodes_view(nodes@);
    let mut blocks: Vec<Block> = Vec::new();
    let mut acc = new_acc();
    let mut i: usize = 0;
    assert(ir::blocks_view(blocks@) =~= seq![]);
    while i < nodes.len()
        invariant
            i <= nodes@.len(),
            v == xml::nodes_view(nodes@),
            ir::blocks_view(blocks@) == slide_run(v.take(i as int)).blocks,
            acc@ == slide_run(v.take(i as int)).table,
        decreases nodes@.len() - i,
    {
        assert(v.take(i + 1).drop_last() =~= v.take(i as int));
        let n = &nodes[i];
        let name = n.name();
        let t = squeeze(&n.text);
        if text::eq(name, "p") {
            if !n.under("tbl") && !text::is_empty(&t) {
                let b = Block::Paragraph(Inline::text(t));
                proof {
                    ir::lemma_blocks_push(blocks@, b);
                }
                blocks.push(b);
            }
        } else if text::eq(name, "tc") {
            push_acc_cell(&mut acc, Inline::text(t));
        } else if text::eq(name, "tr") {
            close_acc_row(&mut acc);
        } else if text::eq(name, "tbl") {
            if acc.rows.len() > 0 {
                let mut rows: Vec<Vec<Inline>> = Vec::new();
                std::mem::swap(&mut rows, &mut acc.rows);
                assert(ir::rows_view(acc.rows@) =~= seq![]);
                let b = table_of(rows);
                proof {
                    ir::lemma_blocks_push(blocks@, b);
                }
                blocks.push(b);
            }
        }
        i += 1;
    }
    assert(v.take(v.len() as int) =~= v);
    blocks
}

fn quote_of(texts: &Vec<String>) -> (r: Block)
    ensures
        r@ == notes_quote(chars::texts(texts@)),
{
    let mut d = Document::new();
    d.push(Block::Paragraph(Inline::of(Span::Strong(Inline::text("Speaker notes")))));
    push_paragraphs(&mut d, texts);
    assert(d@.blocks =~= seq![
        BlockV::Paragraph(seq![SpanV::Strong(seq![SpanV::Text("Speaker notes"@)])]),
    ] + text_paragraphs(chars::texts(texts@)));
    Block::Quote(d.blocks)
}

/// Adds one slide to the document.
fn push_slide(
    zip: &mut Archive,
    k: u32,
    part: &str,
    doc: &mut Document,
    cx: &mut ConvertCx<'_>,
) -> (r: Result<(), ConvertError>)
    ensures
        archive::archive_bytes(*final(zip)) == archive::archive_bytes(*old(zip)),
        *final(final(cx).budget) == *final(old(cx).budget),
        final(cx).start() == old(cx).start(),
        old(cx)@.grows_to(final(cx)@),
        ({
            let want = with_slide(
                archive::archive_bytes(*old(zip)),
                (k as nat, part@),
                old(doc)@,
                old(cx)@,
            );
            &&& final(cx)@ == want.1
            &&& match r {
                Ok(()) => want.0 == Ok::<DocumentV, ErrorV>(final(doc)@),
                Err(e) => want.0 == Err::<DocumentV, ErrorV>(e@),
            }
        }),
{
    let source = match read_part(zip, part, cx) {
        Err(e) => {
            return Err(e);
        },
        Ok(None) => {
            return Ok(());
        },
        Ok(Some(s)) => s,
    };
    let (nodes, fault) = read_nodes(&source, "pptx");
    if let Some(e) = fault {
        return Err(e);
    }
    let number = text::decimal(k as u64);
    let title = text::cat("Slide ", &number);
    doc.push(Block::Heading { level: 2, text: Inline::text(title) });
    doc.push_all(slide_blocks(&nodes));
    let notes = text::cat3("ppt/notesSlides/notesSlide", &number, ".xml");
    match read_part(zip, &notes, cx) {
        Err(e) => Err(e),
        Ok(None) => Ok(()),
        Ok(Some(s)) => {
            let (nodes, fault) = read_nodes(&s, "pptx");
            if let Some(e) = fault {
                return Err(e);
            }
            let texts = note_texts(&nodes);
            if texts.len() > 0 {
                let q = quote_of(&texts);
                doc.push(q);
            }
            Ok(())
        },
    }
}

fn find_paragraph(blocks: &Vec<Block>) -> (r: Option<String>)
    ensures
        chars::opt(r) == first_paragraph_text(ir::blocks_view(blocks@)),
{
    let ghost v = ir::blocks_view(blocks@);
    let mut i: usize = 0;
    assert(v.skip(0) =~= v);
    while i < blocks.len()
        invariant
            i <= blocks@.len(),
            v == ir::blocks_view(blocks@),
            first_paragraph_text(v) == first_paragraph_text(v.skip(i as int)),
        decreases blocks@.len() - i,
    {
        assert(v.skip(i as int)[0] == ir::block_view(blocks@[i as int]));
        assert(v.skip(i as int).skip(1) =~= v.skip(i + 1));
        if let Block::Paragraph(t) = &blocks[i] {
            if !t.is_blank() {
                return Some(t.to_plain());
            }
        }
        i += 1;
    }
    None
}

impl Converter for PptxConverter {
    open spec fn named(&self) -> Seq<char> {
        "pptx"@
    }

    open spec fn ranked(&self) -> i32 {
        0
    }

    open spec fn takes(&self, probe: ProbeV, info: StreamInfoV) -> bool {
        pptx_takes(probe, info)
    }

    open spec fn converts(
        &self,
        bytes: Seq<u8>,
        info: StreamInfoV,
        pre: CxV,
        post: CxV,
        r: Result<DocumentV, ErrorV>,
    ) -> bool {
        let core = spec_core_properties(bytes, ir::empty_document(), pre);
        (r, post) == pptx_result(bytes, pre) || registry::late(pre, r) && open_fault(
            bytes,
            "pptx"@,
        ) is None && slide_reached(
            bytes,
            slides_of(archive::archive_names(bytes)),
            0,
            core.0,
            core.1,
            post,
        )
    }

    fn name(&self) -> (r: &'static str) {
        "pptx"
    }

    fn priority(&self) -> (r: i32) {
        PRIORITY_SPECIFIC
    }

    fn accepts(&self, probe: &Probe<'_>, info: &StreamInfo) -> (r: bool) {
        detect::has_zip_magic(probe) && (info.is_ext("pptx") || info.is_mime(
            "application/vnd.openxmlformats-officedocument.presentationml.presentation",
        ))
    }

    fn convert(&self, bytes: &[u8], info: &StreamInfo, cx: &mut ConvertCx<'_>) -> (r: Result<
        Document,
        ConvertError,
    >) {
        let mut zip = match open(bytes, "pptx") {
            Ok(z) => z,
            Err(e) => {
                return Err(e);
            },
        };
        let mut doc = Document::new();
        core_properties(&mut zip, &mut doc, cx);
        let names = archive::names(&zip);
        let slides = find_slides(&names);
        let ghost v = slides_view(slides@);
        if slides.len() == 0 {
            return Err(
                ConvertError::Malformed {
                    format: "pptx",
                    message: "no ppt/slides/slideN.xml parts — not a presentation".to_owned(),
                },
            );
        }
        let ghost all = with_slides(bytes@, v, 0, doc@, cx@);
        let ghost first = (doc@, cx@);
        let mut i: usize = 0;
        while i < slides.len()
            invariant
                i <= slides@.len(),
                v == slides_view(slides@),
                archive::archive_bytes(zip) == bytes@,
                *final(cx.budget) == *final(old(cx).budget),
                cx.start() == old(cx).start(),
                old(cx)@.grows_to(cx@),
                all == with_slides(bytes@, v, i as int, doc@, cx@),
                v.len() > 0,
                open_fault(bytes@, "pptx"@) is None,
                v == slides_of(archive::archive_names(bytes@)),
                ({
                    let core = spec_core_properties(bytes@, ir::empty_document(), old(cx)@);
                    &&& first == core
                    &&& all == with_slides(bytes@, v, 0, core.0, core.1)
                }),
                forall|at: CxV| #[trigger]
                    slide_reached(bytes@, v, i as int, doc@, cx@, at) ==> slide_reached(
                        bytes@,
                        v,
                        0,
                        first.0,
                        first.1,
                        at,
                    ),
            decreases slides@.len() - i,
        {
            let ghost d0 = doc@;
            let ghost c0 = cx@;
            if let Err(e) = cx.budget().check_deadline() {
                assert(slide_reached(bytes@, v, i as int, d0, c0, c0));
                return Err(e);
            }
            if let Err(e) = push_slide(&mut zip, slides[i].0, &slides[i].1, &mut doc, cx) {
                return Err(e);
            }
            assert forall|at: CxV| #[trigger]
                slide_reached(bytes@, v, i + 1, doc@, cx@, at) implies slide_reached(
                bytes@,
                v,
                0,
                first.0,
                first.1,
                at,
            ) by {
                assert(slide_reached(bytes@, v, i as int, d0, c0, at));
            }
            i += 1;
        }
        if doc.title.is_none() {
            doc.title = find_paragraph(&doc.blocks);
        }
        Ok(doc)
    }
}

} // verus!

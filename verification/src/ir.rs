//! The document model that every converter produces and the renderer reads.

use vstd::prelude::*;
use crate::chars;
use crate::error;
use crate::error::{clone_warnings, Warning, WarningV};
use crate::text;
use crate::text::IntoText;

verus! {

/// A converted document.
#[derive(Debug, PartialEq, Eq)]
pub struct Document {
    pub title: Option<String>,
    pub metadata: Metadata,
    pub blocks: Vec<Block>,
    pub warnings: Vec<Warning>,
}

/// What is known about a document besides its content.
#[derive(Debug, PartialEq, Eq)]
pub struct Metadata {
    pub author: Option<String>,
    pub created: Option<String>,
    pub modified: Option<String>,
    pub language: Option<String>,
    /// Further pairs, in source order.
    pub extra: Vec<(String, String)>,
}

/// A block of a document.
#[derive(Debug, PartialEq, Eq)]
pub enum Block {
    Heading { level: u8, text: Inline },
    Paragraph(Inline),
    List { ordered: bool, items: Vec<Vec<Block>> },
    Table(Table),
    Code { language: Option<String>, text: String },
    Quote(Vec<Block>),
    Image(Image),
    Rule,
    /// Markdown to be emitted as it is.
    Raw { markdown: String },
    /// HTML that Markdown cannot express.
    RawHtml { html: String },
    /// A member of a container.
    Embedded { name: String, doc: Box<Document> },
}

/// A table; rows may be ragged.
#[derive(Debug, PartialEq, Eq)]
pub struct Table {
    pub caption: Option<String>,
    pub header: Option<Vec<Inline>>,
    pub rows: Vec<Vec<Inline>>,
}

/// An image.
#[derive(Debug, PartialEq, Eq)]
pub struct Image {
    pub alt: Option<String>,
    pub caption: Option<String>,
    pub source: ImageRef,
}

/// Where an image's pixels are.
#[derive(Debug, Default, PartialEq, Eq)]
pub enum ImageRef {
    Url(String),
    /// Inside the source document, under this name.
    Embedded(String),
    Resource(String),
    /// Unknown.
    #[default]
    Absent,
}

/// A run of inline content.
#[derive(Debug, PartialEq, Eq)]
pub struct Inline(pub Vec<Span>);

/// A piece of inline content.
#[derive(Debug, PartialEq, Eq)]
pub enum Span {
    Text(String),
    Emphasis(Inline),
    Strong(Inline),
    Code(String),
    Link { text: Inline, href: String },
    LineBreak,
}

/// The value of a [`Span`].
#[verifier::ext_equal]
pub enum SpanV {
    Text(Seq<char>),
    Emphasis(Seq<SpanV>),
    Strong(Seq<SpanV>),
    Code(Seq<char>),
    Link { text: Seq<SpanV>, href: Seq<char> },
    LineBreak,
}

/// The value of a [`Table`].
#[verifier::ext_equal]
pub struct TableV {
    pub caption: Option<Seq<char>>,
    pub header: Option<Seq<Seq<SpanV>>>,
    pub rows: Seq<Seq<Seq<SpanV>>>,
}

/// The value of an [`ImageRef`].
#[verifier::ext_equal]
pub enum ImageRefV {
    Url(Seq<char>),
    Embedded(Seq<char>),
    Resource(Seq<char>),
    Absent,
}

/// The value of an [`Image`].
#[verifier::ext_equal]
pub struct ImageV {
    pub alt: Option<Seq<char>>,
    pub caption: Option<Seq<char>>,
    pub source: ImageRefV,
}

/// The value of [`Metadata`].
#[verifier::ext_equal]
pub struct MetadataV {
    pub author: Option<Seq<char>>,
    pub created: Option<Seq<char>>,
    pub modified: Option<Seq<char>>,
    pub language: Option<Seq<char>>,
    pub extra: Seq<(Seq<char>, Seq<char>)>,
}

/// The value of a [`Block`].
#[verifier::ext_equal]
pub enum BlockV {
    Heading { level: u8, text: Seq<SpanV> },
    Paragraph(Seq<SpanV>),
    List { ordered: bool, items: Seq<Seq<BlockV>> },
    Table(TableV),
    Code { language: Option<Seq<char>>, text: Seq<char> },
    Quote(Seq<BlockV>),
    Image(ImageV),
    Rule,
    Raw { markdown: Seq<char> },
    RawHtml { html: Seq<char> },
    Embedded { name: Seq<char>, doc: Box<DocumentV> },
}

/// The value of a [`Document`].
#[verifier::ext_equal]
pub struct DocumentV {
    pub title: Option<Seq<char>>,
    pub metadata: MetadataV,
    pub blocks: Seq<BlockV>,
    pub warnings: Seq<WarningV>,
}

pub open spec fn spans_view(s: Seq<Span>) -> Seq<SpanV>
    decreases s,
{
    Seq::new(
        s.len(),
        |k: int|
            if 0 <= k < s.len() {
                span_view(s[k])
            } else {
                arbitrary()
            },
    )
}

pub open spec fn span_view(s: Span) -> SpanV
    decreases s,
{
    match s {
        Span::Text(t) => SpanV::Text(t@),
        Span::Emphasis(i) => SpanV::Emphasis(spans_view(i.0@)),
        Span::Strong(i) => SpanV::Strong(spans_view(i.0@)),
        Span::Code(t) => SpanV::Code(t@),
        Span::Link { text, href } => SpanV::Link { text: spans_view(text.0@), href: href@ },
        Span::LineBreak => SpanV::LineBreak,
    }
}

impl View for Inline {
    type V = Seq<SpanV>;

    open spec fn view(&self) -> Seq<SpanV> {
        spans_view(self.0@)
    }
}

impl View for Span {
    type V = SpanV;

    open spec fn view(&self) -> SpanV {
        span_view(*self)
    }
}

pub open spec fn cells_view(s: Seq<Inline>) -> Seq<Seq<SpanV>> {
    Seq::new(s.len(), |k: int| s[k]@)
}

pub open spec fn rows_view(s: Seq<Vec<Inline>>) -> Seq<Seq<Seq<SpanV>>> {
    Seq::new(s.len(), |k: int| cells_view(s[k]@))
}

impl View for Table {
    type V = TableV;

    open spec fn view(&self) -> TableV {
        TableV {
            caption: chars::opt(self.caption),
            header: match self.header {
                Some(h) => Some(cells_view(h@)),
                None => None,
            },
            rows: rows_view(self.rows@),
        }
    }
}

impl View for ImageRef {
    type V = ImageRefV;

    open spec fn view(&self) -> ImageRefV {
        match self {
            ImageRef::Url(u) => ImageRefV::Url(u@),
            ImageRef::Embedded(u) => ImageRefV::Embedded(u@),
            ImageRef::Resource(u) => ImageRefV::Resource(u@),
            ImageRef::Absent => ImageRefV::Absent,
        }
    }
}

impl View for Image {
    type V = ImageV;

    open spec fn view(&self) -> ImageV {
        ImageV {
            alt: chars::opt(self.alt),
            caption: chars::opt(self.caption),
            source: self.source@,
        }
    }
}

/// The values of a list of pairs.
pub open spec fn pairs_view(s: Seq<(String, String)>) -> Seq<(Seq<char>, Seq<char>)> {
    Seq::new(s.len(), |k: int| (s[k].0@, s[k].1@))
}

impl View for Metadata {
    type V = MetadataV;

    open spec fn view(&self) -> MetadataV {
        MetadataV {
            author: chars::opt(self.author),
            created: chars::opt(self.created),
            modified: chars::opt(self.modified),
            language: chars::opt(self.language),
            extra: pairs_view(self.extra@),
        }
    }
}

pub open spec fn blocks_view(s: Seq<Block>) -> Seq<BlockV>
    decreases s,
{
    Seq::new(
        s.len(),
        |k: int|
            if 0 <= k < s.len() {
                block_view(s[k])
            } else {
                arbitrary()
            },
    )
}

pub open spec fn items_view(s: Seq<Vec<Block>>) -> Seq<Seq<BlockV>>
    decreases s,
{
    Seq::new(
        s.len(),
        |k: int|
            if 0 <= k < s.len() {
                blocks_view(s[k]@)
            } else {
                arbitrary()
            },
    )
}

pub open spec fn block_view(b: Block) -> BlockV
    decreases b,
{
    match b {
        Block::Heading { level, text } => BlockV::Heading { level, text: text@ },
        Block::Paragraph(text) => BlockV::Paragraph(text@),
        Block::List { ordered, items } => BlockV::List { ordered, items: items_view(items@) },
        Block::Table(t) => BlockV::Table(t@),
        Block::Code { language, text } => BlockV::Code {
            language: chars::opt(language),
            text: text@,
        },
        Block::Quote(inner) => BlockV::Quote(blocks_view(inner@)),
        Block::Image(i) => BlockV::Image(i@),
        Block::Rule => BlockV::Rule,
        Block::Raw { markdown } => BlockV::Raw { markdown: markdown@ },
        Block::RawHtml { html } => BlockV::RawHtml { html: html@ },
        Block::Embedded { name, doc } => BlockV::Embedded {
            name: name@,
            doc: Box::new(document_view(*doc)),
        },
    }
}

pub open spec fn document_view(d: Document) -> DocumentV
    decreases d,
{
    DocumentV {
        title: chars::opt(d.title),
        metadata: d.metadata@,
        blocks: blocks_view(d.blocks@),
        warnings: error::warnings_view(d.warnings@),
    }
}

impl View for Block {
    type V = BlockV;

    open spec fn view(&self) -> BlockV {
        block_view(*self)
    }
}

impl View for Document {
    type V = DocumentV;

    open spec fn view(&self) -> DocumentV {
        document_view(*self)
    }
}

pub open spec fn empty_metadata() -> MetadataV {
    MetadataV { author: None, created: None, modified: None, language: None, extra: seq![] }
}

pub open spec fn empty_document() -> DocumentV {
    DocumentV { title: None, metadata: empty_metadata(), blocks: seq![], warnings: seq![] }
}

impl DocumentV {
    /// The document with a title, where the title says anything.
    pub open spec fn titled(self, title: Seq<char>) -> DocumentV {
        if chars::is_blank(title) {
            self
        } else {
            DocumentV { title: Some(title), ..self }
        }
    }

    pub open spec fn pushed(self, b: BlockV) -> DocumentV {
        DocumentV { blocks: self.blocks.push(b), ..self }
    }

    pub open spec fn extended(self, bs: Seq<BlockV>) -> DocumentV {
        DocumentV { blocks: self.blocks + bs, ..self }
    }

    pub open spec fn warned(self, w: WarningV) -> DocumentV {
        DocumentV { warnings: self.warnings.push(w), ..self }
    }
}

impl MetadataV {
    /// The metadata with one more pair, where the value says anything.
    pub open spec fn with(self, key: Seq<char>, value: Seq<char>) -> MetadataV {
        if chars::is_blank(value) {
            self
        } else {
            MetadataV { extra: self.extra.push((key, value)), ..self }
        }
    }
}

/// The value of the first pair with this key.
pub open spec fn lookup(s: Seq<(Seq<char>, Seq<char>)>, key: Seq<char>) -> Option<Seq<char>>
    decreases s.len(),
{
    if s.len() == 0 {
        None
    } else if s[0].0 == key {
        Some(s[0].1)
    } else {
        lookup(s.skip(1), key)
    }
}

/// How many blocks there are, those inside other blocks included.
pub open spec fn count_blocks(s: Seq<BlockV>) -> nat
    decreases s,
{
    if s.len() == 0 {
        0
    } else {
        count_blocks(s.drop_last()) + count_block(s.last())
    }
}

pub open spec fn count_items(s: Seq<Seq<BlockV>>) -> nat
    decreases s,
{
    if s.len() == 0 {
        0
    } else {
        count_items(s.drop_last()) + count_blocks(s.last())
    }
}

pub open spec fn count_block(b: BlockV) -> nat
    decreases b,
{
    1 + (match b {
        BlockV::List { items, .. } => count_items(items),
        BlockV::Quote(inner) => count_blocks(inner),
        BlockV::Embedded { doc, .. } => count_blocks(doc.blocks),
        _ => 0,
    })
}

/// The text of a run of spans, without markup.
pub open spec fn plain(s: Seq<SpanV>) -> Seq<char>
    decreases s,
{
    if s.len() == 0 {
        seq![]
    } else {
        plain(s.drop_last()) + plain_span(s.last())
    }
}

pub open spec fn plain_span(s: SpanV) -> Seq<char>
    decreases s,
{
    match s {
        SpanV::Text(t) => t,
        SpanV::Code(t) => t,
        SpanV::Emphasis(i) => plain(i),
        SpanV::Strong(i) => plain(i),
        SpanV::Link { text, .. } => plain(text),
        SpanV::LineBreak => seq![' '],
    }
}

/// The largest number of cells in any of the rows.
pub open spec fn widest(rows: Seq<Seq<Seq<SpanV>>>) -> nat
    decreases rows.len(),
{
    if rows.len() == 0 {
        0
    } else {
        let w = widest(rows.drop_last());
        if rows.last().len() > w {
            rows.last().len()
        } else {
            w
        }
    }
}

impl TableV {
    /// How many columns the table needs.
    pub open spec fn width(self) -> nat {
        let w = widest(self.rows);
        match self.header {
            Some(h) => if h.len() > w {
                h.len()
            } else {
                w
            },
            None => w,
        }
    }
}

/// Every row fits the table's width, and so does the header.
pub proof fn width_covers_rows(t: TableV)
    ensures
        forall|i: int| 0 <= i < t.rows.len() ==> #[trigger] t.rows[i].len() <= t.width(),
        t.header matches Some(h) ==> h.len() <= t.width(),
{
    lemma_widest(t.rows);
}

proof fn lemma_widest(rows: Seq<Seq<Seq<SpanV>>>)
    ensures
        forall|i: int| 0 <= i < rows.len() ==> #[trigger] rows[i].len() <= widest(rows),
    decreases rows.len(),
{
    if rows.len() > 0 {
        lemma_widest(rows.drop_last());
        assert forall|i: int| 0 <= i < rows.len() implies #[trigger] rows[i].len() <= widest(
            rows,
        ) by {
            if i < rows.len() - 1 {
                assert(rows[i] == rows.drop_last()[i]);
            }
        }
    }
}

impl Default for Document {
    fn default() -> (r: Self)
        ensures
            r@ == empty_document(),
    {
        let r = Document {
            title: None,
            metadata: Metadata::default(),
            blocks: Vec::new(),
            warnings: Vec::new(),
        };
        assert(blocks_view(r.blocks@) =~= seq![]);
        assert(error::warnings_view(r.warnings@) =~= seq![]);
        assert(r@ =~= empty_document());
        r
    }
}

impl Default for Metadata {
    fn default() -> (r: Self)
        ensures
            r@ == empty_metadata(),
    {
        let r = Metadata {
            author: None,
            created: None,
            modified: None,
            language: None,
            extra: Vec::new(),
        };
        assert(r@ =~= empty_metadata());
        r
    }
}

impl Default for Table {
    fn default() -> (r: Self)
        ensures
            r@ == (TableV { caption: None, header: None, rows: seq![] }),
    {
        let r = Table { caption: None, header: None, rows: Vec::new() };
        assert(r@.rows =~= seq![]);
        r
    }
}

impl Default for Image {
    fn default() -> (r: Self)
        ensures
            r@ == (ImageV { alt: None, caption: None, source: ImageRefV::Absent }),
    {
        Image { alt: None, caption: None, source: ImageRef::Absent }
    }
}

impl Default for Inline {
    fn default() -> (r: Self)
        ensures
            r@ == Seq::<SpanV>::empty(),
    {
        let r = Inline(Vec::new());
        assert(r@ =~= Seq::<SpanV>::empty());
        r
    }
}

pub proof fn lemma_blocks_push(s: Seq<Block>, b: Block)
    ensures
        blocks_view(s.push(b)) == blocks_view(s).push(b@),
{
    assert(blocks_view(s.push(b)) =~= blocks_view(s).push(b@));
}

pub proof fn lemma_spans_push(s: Seq<Span>, x: Span)
    ensures
        spans_view(s.push(x)) == spans_view(s).push(x@),
{
    assert(spans_view(s.push(x)) =~= spans_view(s).push(x@));
}

fn clone_span(x: &Span) -> (r: Span)
    ensures
        r@ == x@,
    decreases x,
{
    match x {
        Span::Text(t) => Span::Text(t.clone()),
        Span::Emphasis(i) => Span::Emphasis(Inline(clone_spans(&i.0))),
        Span::Strong(i) => Span::Strong(Inline(clone_spans(&i.0))),
        Span::Code(t) => Span::Code(t.clone()),
        Span::Link { text, href } => Span::Link {
            text: Inline(clone_spans(&text.0)),
            href: href.clone(),
        },
        Span::LineBreak => Span::LineBreak,
    }
}

fn clone_spans(v: &Vec<Span>) -> (r: Vec<Span>)
    ensures
        spans_view(r@) == spans_view(v@),
    decreases v,
{
    let mut out: Vec<Span> = Vec::new();
    let mut i: usize = 0;
    while i < v.len()
        invariant
            i <= v@.len(),
            spans_view(out@) == spans_view(v@).take(i as int),
        decreases v@.len() - i,
    {
        let x = clone_span(&v[i]);
        proof {
            lemma_spans_push(out@, x);
        }
        out.push(x);
        i += 1;
        assert(spans_view(v@).take(i as int) =~= spans_view(v@).take(i - 1).push(
            span_view(v@[i - 1]),
        ));
    }
    assert(spans_view(v@).take(v@.len() as int) =~= spans_view(v@));
    out
}

fn clone_cells(v: &Vec<Inline>) -> (r: Vec<Inline>)
    ensures
        cells_view(r@) == cells_view(v@),
{
    let mut out: Vec<Inline> = Vec::new();
    let mut i: usize = 0;
    while i < v.len()
        invariant
            i <= v@.len(),
            cells_view(out@) == cells_view(v@).take(i as int),
        decreases v@.len() - i,
    {
        let x = Inline(clone_spans(&v[i].0));
        let ghost before = out@;
        out.push(x);
        i += 1;
        assert(cells_view(out@) =~= cells_view(before).push(x@));
        assert(cells_view(v@).take(i as int) =~= cells_view(v@).take(i - 1).push(v@[i - 1]@));
    }
    assert(cells_view(v@).take(v@.len() as int) =~= cells_view(v@));
    out
}

fn clone_rows(v: &Vec<Vec<Inline>>) -> (r: Vec<Vec<Inline>>)
    ensures
        rows_view(r@) == rows_view(v@),
{
    let mut out: Vec<Vec<Inline>> = Vec::new();
    let mut i: usize = 0;
    while i < v.len()
        invariant
            i <= v@.len(),
            rows_view(out@) == rows_view(v@).take(i as int),
        decreases v@.len() - i,
    {
        let x = clone_cells(&v[i]);
        let ghost before = out@;
        out.push(x);
        i += 1;
        assert(rows_view(out@) =~= rows_view(before).push(cells_view(x@)));
        assert(rows_view(v@).take(i as int) =~= rows_view(v@).take(i - 1).push(
            cells_view(v@[i - 1]@),
        ));
    }
    assert(rows_view(v@).take(v@.len() as int) =~= rows_view(v@));
    out
}

/// A copy of a list of pairs.
pub fn clone_pairs(v: &Vec<(String, String)>) -> (r: Vec<(String, String)>)
    ensures
        pairs_view(r@) == pairs_view(v@),
{
    let mut out: Vec<(String, String)> = Vec::new();
    let mut i: usize = 0;
    while i < v.len()
        invariant
            i <= v@.len(),
            pairs_view(out@) == pairs_view(v@).take(i as int),
        decreases v@.len() - i,
    {
        let x = (v[i].0.clone(), v[i].1.clone());
        let ghost before = out@;
        out.push(x);
        i += 1;
        assert(pairs_view(out@) =~= pairs_view(before).push((x.0@, x.1@)));
        assert(pairs_view(v@).take(i as int) =~= pairs_view(v@).take(i - 1).push(
            (v@[i - 1].0@, v@[i - 1].1@),
        ));
    }
    assert(pairs_view(v@).take(v@.len() as int) =~= pairs_view(v@));
    out
}

fn clone_block(b: &Block) -> (r: Block)
    ensures
        r@ == b@,
    decreases b,
{
    match b {
        Block::Heading { level, text } => Block::Heading { level: *level, text: text.clone() },
        Block::Paragraph(text) => Block::Paragraph(text.clone()),
        Block::List { ordered, items } => Block::List {
            ordered: *ordered,
            items: clone_items(items),
        },
        Block::Table(t) => Block::Table(t.clone()),
        Block::Code { language, text } => Block::Code {
            language: text::opt_clone(language),
            text: text.clone(),
        },
        Block::Quote(inner) => Block::Quote(clone_blocks(inner)),
        Block::Image(i) => Block::Image(i.clone()),
        Block::Rule => Block::Rule,
        Block::Raw { markdown } => Block::Raw { markdown: markdown.clone() },
        Block::RawHtml { html } => Block::RawHtml { html: html.clone() },
        Block::Embedded { name, doc } => Block::Embedded {
            name: name.clone(),
            doc: Box::new(
                Document {
                    title: text::opt_clone(&doc.title),
                    metadata: doc.metadata.clone(),
                    blocks: clone_blocks(&doc.blocks),
                    warnings: clone_warnings(&doc.warnings),
                },
            ),
        },
    }
}

fn clone_blocks(v: &Vec<Block>) -> (r: Vec<Block>)
    ensures
        blocks_view(r@) == blocks_view(v@),
    decreases v,
{
    let mut out: Vec<Block> = Vec::new();
    let mut i: usize = 0;
    while i < v.len()
        invariant
            i <= v@.len(),
            blocks_view(out@) == blocks_view(v@).take(i as int),
        decreases v@.len() - i,
    {
        let x = clone_block(&v[i]);
        proof {
            lemma_blocks_push(out@, x);
        }
        out.push(x);
        i += 1;
        assert(blocks_view(v@).take(i as int) =~= blocks_view(v@).take(i - 1).push(
            block_view(v@[i - 1]),
        ));
    }
    assert(blocks_view(v@).take(v@.len() as int) =~= blocks_view(v@));
    out
}

fn clone_items(v: &Vec<Vec<Block>>) -> (r: Vec<Vec<Block>>)
    ensures
        items_view(r@) == items_view(v@),
    decreases v,
{
    let mut out: Vec<Vec<Block>> = Vec::new();
    let mut i: usize = 0;
    while i < v.len()
        invariant
            i <= v@.len(),
            items_view(out@) == items_view(v@).take(i as int),
        decreases v@.len() - i,
    {
        let x = clone_blocks(&v[i]);
        let ghost before = out@;
        out.push(x);
        i += 1;
        assert(items_view(out@) =~= items_view(before).push(blocks_view(x@)));
        assert(items_view(v@).take(i as int) =~= items_view(v@).take(i - 1).push(
            blocks_view(v@[i - 1]@),
        ));
    }
    assert(items_view(v@).take(v@.len() as int) =~= items_view(v@));
    out
}

impl Clone for Span {
    fn clone(&self) -> (r: Self)
        ensures
            r@ == self@,
    {
        clone_span(self)
    }
}

impl Clone for Inline {
    fn clone(&self) -> (r: Self)
        ensures
            r@ == self@,
    {
        Inline(clone_spans(&self.0))
    }
}

impl Clone for Table {
    fn clone(&self) -> (r: Self)
        ensures
            r@ == self@,
    {
        Table {
            caption: text::opt_clone(&self.caption),
            header: match &self.header {
                Some(h) => Some(clone_cells(h)),
                None => None,
            },
            rows: clone_rows(&self.rows),
        }
    }
}

impl Clone for ImageRef {
    fn clone(&self) -> (r: Self)
        ensures
            r@ == self@,
    {
        match self {
            ImageRef::Url(u) => ImageRef::Url(u.clone()),
            ImageRef::Embedded(u) => ImageRef::Embedded(u.clone()),
            ImageRef::Resource(u) => ImageRef::Resource(u.clone()),
            ImageRef::Absent => ImageRef::Absent,
        }
    }
}

impl Clone for Image {
    fn clone(&self) -> (r: Self)
        ensures
            r@ == self@,
    {
        Image {
            alt: text::opt_clone(&self.alt),
            caption: text::opt_clone(&self.caption),
            source: self.source.clone(),
        }
    }
}

impl Clone for Metadata {
    fn clone(&self) -> (r: Self)
        ensures
            r@ == self@,
    {
        Metadata {
            author: text::opt_clone(&self.author),
            created: text::opt_clone(&self.created),
            modified: text::opt_clone(&self.modified),
            language: text::opt_clone(&self.language),
            extra: clone_pairs(&self.extra),
        }
    }
}

impl Clone for Block {
    fn clone(&self) -> (r: Self)
        ensures
            r@ == self@,
    {
        clone_block(self)
    }
}

impl Clone for Document {
    fn clone(&self) -> (r: Self)
        ensures
            r@ == self@,
    {
        Document {
            title: text::opt_clone(&self.title),
            metadata: self.metadata.clone(),
            blocks: clone_blocks(&self.blocks),
            warnings: clone_warnings(&self.warnings),
        }
    }
}

impl Document {
    #[must_use]
    pub fn new() -> (r: Self)
        ensures
            r@ == empty_document(),
    {
        Document::default()
    }

    /// Sets the title, unless it is blank.
    #[must_use]
    pub fn with_title<T: IntoText>(self, title: T) -> (r: Self)
        ensures
            r@ == self@.titled(title.text()),
    {
        let t = title.into_text();
        let mut d = self;
        if !text::is_blank(&t) {
            d.title = Some(t);
        }
        d
    }

    pub fn push(&mut self, block: Block)
        ensures
            final(self)@ == old(self)@.pushed(block@),
    {
        proof {
            lemma_blocks_push(self.blocks@, block);
        }
        self.blocks.push(block);
    }

    /// Adds blocks at the end.
    pub fn push_all(&mut self, blocks: Vec<Block>)
        ensures
            final(self)@ == old(self)@.extended(blocks_view(blocks@)),
    {
        let mut more = blocks;
        let ghost a = self.blocks@;
        let ghost b = more@;
        self.blocks.append(&mut more);
        assert(blocks_view(a + b) =~= blocks_view(a) + blocks_view(b));
    }

    pub fn warn(&mut self, warning: Warning)
        ensures
            final(self)@ == old(self)@.warned(warning@),
    {
        let ghost before = self.warnings@;
        self.warnings.push(warning);
        assert(error::warnings_view(self.warnings@) =~= error::warnings_view(before).push(warning@));
    }

    /// How many blocks there are, those inside other blocks included, up to
    /// the largest number that fits.
    #[must_use]
    pub fn block_count(&self) -> (r: usize)
        ensures
            r == (if count_blocks(self@.blocks) > usize::MAX {
                usize::MAX as nat
            } else {
                count_blocks(self@.blocks)
            }),
    {
        count_in(&self.blocks)
    }
}

pub open spec fn capped(n: nat) -> nat {
    if n > usize::MAX {
        usize::MAX as nat
    } else {
        n
    }
}

fn count_in(blocks: &Vec<Block>) -> (r: usize)
    ensures
        r == capped(count_blocks(blocks_view(blocks@))),
    decreases blocks,
{
    let mut n: usize = 0;
    let mut i: usize = 0;
    let ghost v = blocks_view(blocks@);
    while i < blocks.len()
        invariant
            i <= blocks@.len(),
            v == blocks_view(blocks@),
            n == capped(count_blocks(v.take(i as int))),
        decreases blocks@.len() - i,
    {
        let inner: usize = match &blocks[i] {
            Block::List { ordered: _, items } => count_in_items(items),
            Block::Quote(inner) => count_in(inner),
            Block::Embedded { name: _, doc } => count_in(&doc.blocks),
            _ => 0,
        };
        assert(count_block(block_view(blocks@[i as int])) == 1 + (match block_view(
            blocks@[i as int],
        ) {
            BlockV::List { items, .. } => count_items(items),
            BlockV::Quote(inner) => count_blocks(inner),
            BlockV::Embedded { doc, .. } => count_blocks(doc.blocks),
            _ => 0,
        }));
        n = n.saturating_add(inner.saturating_add(1));
        i += 1;
        proof {
            assert(v.take(i as int).drop_last() =~= v.take(i - 1));
            assert(v.take(i as int).last() == block_view(blocks@[i - 1]));
        }
    }
    assert(v.take(v.len() as int) =~= v);
    n
}

fn count_in_items(items: &Vec<Vec<Block>>) -> (r: usize)
    ensures
        r == capped(count_items(items_view(items@))),
    decreases items,
{
    let mut n: usize = 0;
    let mut i: usize = 0;
    let ghost v = items_view(items@);
    while i < items.len()
        invariant
            i <= items@.len(),
            v == items_view(items@),
            n == capped(count_items(v.take(i as int))),
        decreases items@.len() - i,
    {
        let inner: usize = count_in(&items[i]);
        n = n.saturating_add(inner);
        i += 1;
        proof {
            assert(v.take(i as int).drop_last() =~= v.take(i - 1));
            assert(v.take(i as int).last() == blocks_view(items@[i - 1]@));
        }
    }
    assert(v.take(v.len() as int) =~= v);
    n
}

impl Metadata {
    /// Adds a pair, unless the value is blank.
    pub fn set<K: IntoText, T: IntoText>(&mut self, key: K, value: T)
        ensures
            final(self)@ == old(self)@.with(key.text(), value.text()),
    {
        let v = value.into_text();
        if text::is_blank(&v) {
            return;
        }
        let ghost before = self.extra@;
        let pair = (key.into_text(), v);
        self.extra.push(pair);
        assert(pairs_view(self.extra@) =~= pairs_view(before).push((pair.0@, pair.1@)));
    }

    /// The value of the first pair with this key.
    #[must_use]
    pub fn get(&self, key: &str) -> (r: Option<&str>)
        ensures
            r matches Some(v) ==> lookup(self@.extra, key@) == Some(v@),
            r is None ==> lookup(self@.extra, key@) is None,
    {
        let ghost all = self@.extra;
        let mut i: usize = 0;
        assert(all.skip(0) =~= all);
        while i < self.extra.len()
            invariant
                i <= self.extra@.len(),
                all == pairs_view(self.extra@),
                lookup(all, key@) == lookup(all.skip(i as int), key@),
            decreases self.extra@.len() - i,
        {
            if text::eq(self.extra[i].0.as_str(), key) {
                return Some(self.extra[i].1.as_str());
            }
            assert(all.skip(i as int).skip(1) =~= all.skip(i + 1));
            i += 1;
        }
        None
    }
}

impl Table {
    /// How many columns the table needs.
    #[must_use]
    pub fn width(&self) -> (r: usize)
        ensures
            r == self@.width(),
    {
        let ghost v = rows_view(self.rows@);
        let mut w: usize = 0;
        let mut i: usize = 0;
        while i < self.rows.len()
            invariant
                i <= self.rows@.len(),
                v == rows_view(self.rows@),
                w == widest(v.take(i as int)),
            decreases self.rows@.len() - i,
        {
            if self.rows[i].len() > w {
                w = self.rows[i].len();
            }
            i += 1;
            proof {
                assert(v.take(i as int).drop_last() =~= v.take(i - 1));
            }
        }
        assert(v.take(v.len() as int) =~= v);
        match &self.header {
            Some(h) => if h.len() > w {
                h.len()
            } else {
                w
            },
            None => w,
        }
    }
}

impl Inline {
    #[must_use]
    pub fn text<T: IntoText>(s: T) -> (r: Self)
        ensures
            r@ == seq![SpanV::Text(s.text())],
    {
        Inline::of(Span::Text(s.into_text()))
    }

    /// A run of one span.
    #[must_use]
    pub fn of(span: Span) -> (r: Self)
        ensures
            r@ == seq![span@],
    {
        let mut v: Vec<Span> = Vec::new();
        v.push(span);
        let r = Inline(v);
        assert(r@ =~= seq![span@]);
        r
    }

    #[must_use]
    pub fn empty() -> (r: Self)
        ensures
            r@ == Seq::<SpanV>::empty(),
    {
        Inline::default()
    }

    pub fn push(&mut self, span: Span)
        ensures
            final(self)@ == old(self)@.push(span@),
    {
        proof {
            lemma_spans_push(self.0@, span);
        }
        self.0.push(span);
    }

    /// The text without markup.
    #[must_use]
    pub fn to_plain(&self) -> (r: String)
        ensures
            r@ == plain(self@),
        decreases self,
    {
        let ghost v = self@;
        let mut out = String::new();
        let mut i: usize = 0;
        while i < self.0.len()
            invariant
                i <= self.0@.len(),
                v == self@,
                out@ == plain(v.take(i as int)),
            decreases self.0@.len() - i,
        {
            match &self.0[i] {
                Span::Text(t) => out.append(t.as_str()),
                Span::Code(t) => out.append(t.as_str()),
                Span::Emphasis(x) => {
                    let s = x.to_plain();
                    out.append(s.as_str());
                },
                Span::Strong(x) => {
                    let s = x.to_plain();
                    out.append(s.as_str());
                },
                Span::Link { text, href: _ } => {
                    let s = text.to_plain();
                    out.append(s.as_str());
                },
                Span::LineBreak => out.push(' '),
            }
            i += 1;
            proof {
                assert(v.take(i as int).drop_last() =~= v.take(i - 1));
                assert(v.take(i as int).last() == span_view(self.0@[i - 1]));
                assert(out@ =~= plain(v.take(i - 1)) + plain_span(span_view(self.0@[i - 1])));
            }
        }
        assert(v.take(v.len() as int) =~= v);
        out
    }

    /// Nothing but white space.
    #[must_use]
    pub fn is_blank(&self) -> (r: bool)
        ensures
            r == chars::is_blank(plain(self@)),
    {
        let s = self.to_plain();
        text::is_blank(&s)
    }
}

impl From<&str> for Inline {
    fn from(s: &str) -> (r: Self)
        ensures
            r@ == seq![SpanV::Text(s@)],
    {
        Inline::text(s)
    }
}

impl vstd::std_specs::convert::FromSpecImpl<&str> for Inline {
    open spec fn obeys_from_spec() -> bool {
        false
    }

    open spec fn from_spec(s: &str) -> Inline {
        arbitrary()
    }
}

impl From<String> for Inline {
    fn from(s: String) -> (r: Self)
        ensures
            r@ == seq![SpanV::Text(s@)],
    {
        Inline::text(s)
    }
}

impl vstd::std_specs::convert::FromSpecImpl<String> for Inline {
    open spec fn obeys_from_spec() -> bool {
        false
    }

    open spec fn from_spec(s: String) -> Inline {
        arbitrary()
    }
}

pub open spec fn without_controls(s: Seq<char>) -> Seq<char>
    decreases s.len(),
{
    if s.len() == 0 {
        seq![]
    } else if chars::is_control(s.last()) {
        without_controls(s.drop_last())
    } else {
        without_controls(s.drop_last()).push(s.last())
    }
}

/// A path segment without what follows a colon and without control characters.
pub open spec fn clean_segment(seg: Seq<char>) -> Seq<char> {
    without_controls(chars::split(seg, ":"@)[0])
}

/// The cleaned segments that are left of a path.
pub open spec fn kept_segments(segs: Seq<Seq<char>>) -> Seq<Seq<char>>
    decreases segs.len(),
{
    if segs.len() == 0 {
        seq![]
    } else {
        let t = kept_segments(segs.drop_last());
        let seg = clean_segment(segs.last());
        if seg.len() == 0 || seg == "."@ || seg == ".."@ {
            t
        } else {
            t.push(seg)
        }
    }
}

/// The segments of a member's name that is safe to show.
pub open spec fn member_segments(raw: Seq<char>) -> Seq<Seq<char>> {
    kept_segments(chars::split(chars::replace(raw, "\\"@, "/"@), "/"@))
}

pub open spec fn spec_sanitize_member_name(raw: Seq<char>) -> Seq<char> {
    let cleaned = chars::join(member_segments(raw), "/"@);
    if cleaned.len() == 0 {
        "unnamed"@
    } else {
        cleaned
    }
}

/// Neither a separator of another platform, nor a colon, nor a control
/// character.
pub open spec fn is_tame(c: char) -> bool {
    c != '\\' && c != ':' && !chars::is_control(c)
}

pub open spec fn is_tame_segment(seg: Seq<char>) -> bool {
    seg.len() > 0 && forall|j: int| 0 <= j < seg.len() ==> is_tame(#[trigger] seg[j]) && seg[j] != '/'
}

/// A segment that a sanitized name may have.
pub open spec fn is_safe_segment(seg: Seq<char>) -> bool {
    is_tame_segment(seg) && seg != "."@ && seg != ".."@
}

/// A name that stays where it is shown: it is not empty, holds no backslash,
/// colon or control character, and none of the segments between its slashes is
/// empty, `.` or `..`.
pub open spec fn is_safe_name(name: Seq<char>) -> bool {
    &&& name.len() > 0
    &&& forall|j: int| 0 <= j < name.len() ==> is_tame(#[trigger] name[j])
    &&& forall|i: int|
        0 <= i < chars::split(name, "/"@).len() ==> is_safe_segment(
            #[trigger] chars::split(name, "/"@)[i],
        )
}

proof fn lemma_without_controls(s: Seq<char>)
    ensures
        forall|j: int|
            0 <= j < without_controls(s).len() ==> s.contains(#[trigger] without_controls(s)[j])
                && !chars::is_control(without_controls(s)[j]),
        (forall|j: int| 0 <= j < s.len() ==> !chars::is_control(#[trigger] s[j]))
            ==> without_controls(s) == s,
    decreases s.len(),
{
    if s.len() > 0 {
        let t = s.drop_last();
        lemma_without_controls(t);
        assert forall|j: int| 0 <= j < without_controls(s).len() implies s.contains(
            #[trigger] without_controls(s)[j],
        ) && !chars::is_control(without_controls(s)[j]) by {
            if j < without_controls(t).len() {
                assert(without_controls(s)[j] == without_controls(t)[j]);
                let m = choose|m: int| 0 <= m < t.len() && t[m] == without_controls(t)[j];
                assert(s[m] == t[m]);
            } else {
                assert(s[s.len() - 1] == s.last());
            }
        }
        if forall|j: int| 0 <= j < s.len() ==> !chars::is_control(#[trigger] s[j]) {
            assert forall|j: int| 0 <= j < t.len() implies !chars::is_control(#[trigger] t[j]) by {
                assert(t[j] == s[j]);
            }
            assert(!chars::is_control(s[s.len() - 1]));
            assert(without_controls(s) =~= s);
        }
    }
}

proof fn lemma_kept_segments(segs: Seq<Seq<char>>)
    requires
        forall|i: int, j: int|
            0 <= i < segs.len() && 0 <= j < segs[i].len() ==> (#[trigger] segs[i][j]) != '/'
                && segs[i][j] != '\\',
    ensures
        forall|i: int|
            0 <= i < kept_segments(segs).len() ==> is_safe_segment(#[trigger] kept_segments(segs)[i]),
    decreases segs.len(),
{
    if segs.len() > 0 {
        let before = segs.drop_last();
        assert forall|i: int, j: int| 0 <= i < before.len() && 0 <= j < before[i].len() implies (
        #[trigger] before[i][j]) != '/' && before[i][j] != '\\' by {
            assert(before[i][j] == segs[i][j]);
        }
        lemma_kept_segments(before);
        let seg = segs.last();
        let head = chars::split(seg, ":"@)[0];
        reveal_strlit(":");
        assert(":"@ =~= seq![':']);
        chars::lemma_split_pieces(seg, ':');
        lemma_without_controls(head);
        let c = clean_segment(seg);
        assert forall|j: int| 0 <= j < c.len() implies is_tame(#[trigger] c[j]) && c[j] != '/' by {
            assert(head.contains(c[j]));
            let m = choose|m: int| 0 <= m < head.len() && head[m] == c[j];
            assert(chars::split(seg, seq![':'])[0][m] == c[j]);
            assert(seg.contains(c[j]));
            let n = choose|n: int| 0 <= n < seg.len() && seg[n] == c[j];
            assert(segs[segs.len() - 1][n] == c[j]);
        }
        let all = kept_segments(segs);
        let some = kept_segments(before);
        assert forall|i: int| 0 <= i < all.len() implies is_safe_segment(#[trigger] all[i]) by {
            if i < some.len() {
                assert(all[i] == some[i]);
            }
        }
    }
}

/// Segments that are safe are kept as they are.
proof fn lemma_safe_segments_stay(segs: Seq<Seq<char>>)
    requires
        forall|i: int| 0 <= i < segs.len() ==> is_safe_segment(#[trigger] segs[i]),
    ensures
        kept_segments(segs) == segs,
    decreases segs.len(),
{
    if segs.len() > 0 {
        let before = segs.drop_last();
        assert forall|i: int| 0 <= i < before.len() implies is_safe_segment(
            #[trigger] before[i],
        ) by {
            assert(before[i] == segs[i]);
        }
        lemma_safe_segments_stay(before);
        let seg = segs.last();
        assert(seg == segs[segs.len() - 1]);
        reveal_strlit(":");
        assert(":"@ =~= seq![':']);
        chars::lemma_find_from(seg, ":"@, 0);
        if let Some(k) = chars::find(seg, ":"@) {
            assert(seg.subrange(k, k + 1)[0] == seg[k]);
        }
        assert(chars::split(seg, ":"@) == seq![seg]);
        lemma_without_controls(seg);
        assert forall|j: int| 0 <= j < seg.len() implies !chars::is_control(#[trigger] seg[j]) by {
            assert(is_tame(seg[j]));
        }
        assert(kept_segments(segs) =~= segs);
    } else {
        assert(kept_segments(segs) =~= segs);
    }
}

/// A name made of safe segments has just these, and sanitizing leaves it alone.
proof fn lemma_safe_segments(segs: Seq<Seq<char>>)
    requires
        segs.len() > 0,
        forall|i: int| 0 <= i < segs.len() ==> is_safe_segment(#[trigger] segs[i]),
    ensures
        chars::split(chars::join(segs, "/"@), "/"@) == segs,
        is_safe_name(chars::join(segs, "/"@)),
        spec_sanitize_member_name(chars::join(segs, "/"@)) == chars::join(segs, "/"@),
{
    reveal_strlit("/");
    reveal_strlit("\\");
    assert("/"@ =~= seq!['/']);
    assert("\\"@ =~= seq!['\\']);
    let name = chars::join(segs, "/"@);
    assert forall|i: int| 0 <= i < segs.len() implies !(#[trigger] segs[i]).contains('/') by {
        assert(is_safe_segment(segs[i]));
    }
    chars::lemma_split_join(segs, '/');
    assert(is_safe_segment(segs[0]));
    if segs.len() > 1 {
        assert(name.len() > 0);
    }
    assert forall|j: int| 0 <= j < name.len() implies is_tame(#[trigger] name[j]) by {
        let c = name[j];
        assert(name.contains(c));
        chars::lemma_join_chars(segs, "/"@, c);
        if !"/"@.contains(c) {
            let k = choose|k: int| 0 <= k < segs.len() && (#[trigger] segs[k]).contains(c);
            assert(is_safe_segment(segs[k]));
            let m = choose|m: int| 0 <= m < segs[k].len() && segs[k][m] == c;
            assert(is_tame(segs[k][m]));
        }
    }
    chars::lemma_find_from(name, "\\"@, 0);
    if let Some(k) = chars::find(name, "\\"@) {
        assert(name.subrange(k, k + 1)[0] == name[k]);
    }
    assert(chars::split(name, "\\"@) == seq![name]);
    assert(chars::replace(name, "\\"@, "/"@) == name);
    lemma_safe_segments_stay(segs);
}

/// The segments of a sanitized name.
spec fn safe_segments(raw: Seq<char>) -> Seq<Seq<char>> {
    if member_segments(raw).len() == 0 {
        seq!["unnamed"@]
    } else {
        member_segments(raw)
    }
}

proof fn lemma_sanitized(raw: Seq<char>)
    ensures
        safe_segments(raw).len() > 0,
        forall|i: int|
            0 <= i < safe_segments(raw).len() ==> is_safe_segment(#[trigger] safe_segments(raw)[i]),
        spec_sanitize_member_name(raw) == chars::join(safe_segments(raw), "/"@),
{
    reveal_strlit("/");
    reveal_strlit("\\");
    reveal_strlit(".");
    reveal_strlit("..");
    reveal_strlit("unnamed");
    assert("/"@ =~= seq!['/']);
    assert("\\"@ =~= seq!['\\']);
    assert("unnamed"@.len() == 7);
    let t = chars::replace(raw, "\\"@, "/"@);
    let segs = chars::split(t, "/"@);
    chars::lemma_split_pieces(raw, '\\');
    chars::lemma_split_pieces(t, '/');
    assert forall|i: int, j: int| 0 <= i < segs.len() && 0 <= j < segs[i].len() implies (
    #[trigger] segs[i][j]) != '/' && segs[i][j] != '\\' by {
        let c = segs[i][j];
        assert(t.contains(c));
        if c == '\\' {
            chars::lemma_join_chars(chars::split(raw, "\\"@), "/"@, c);
            let k = choose|k: int|
                0 <= k < chars::split(raw, "\\"@).len() && (#[trigger] chars::split(
                    raw,
                    "\\"@,
                )[k]).contains(c);
            let piece = chars::split(raw, seq!['\\'])[k];
            let m = choose|m: int| 0 <= m < piece.len() && piece[m] == c;
            assert(chars::split(raw, seq!['\\'])[k][m] != '\\');
        }
    }
    lemma_kept_segments(segs);
    let kept = member_segments(raw);
    if kept.len() > 0 {
        assert(is_safe_segment(kept[0]));
    }
}

/// A sanitized name stays where it is shown, whatever the raw name was.
pub proof fn sanitized_names_are_safe(raw: Seq<char>)
    ensures
        is_safe_name(spec_sanitize_member_name(raw)),
{
    lemma_sanitized(raw);
    lemma_safe_segments(safe_segments(raw));
}

/// Sanitizing a sanitized name leaves it as it is.
pub proof fn sanitizing_is_idempotent(raw: Seq<char>)
    ensures
        spec_sanitize_member_name(spec_sanitize_member_name(raw)) == spec_sanitize_member_name(raw),
{
    lemma_sanitized(raw);
    lemma_safe_segments(safe_segments(raw));
}

/// A name of which nothing is left is replaced.
pub proof fn nameless_members_are_named(raw: Seq<char>)
    requires
        member_segments(raw).len() == 0,
    ensures
        spec_sanitize_member_name(raw) == "unnamed"@,
{
}

fn strip_controls(s: &str) -> (r: String)
    ensures
        r@ == without_controls(s@),
{
    let v = text::to_chars(s);
    let mut out = String::new();
    let mut i: usize = 0;
    while i < v.len()
        invariant
            i <= v@.len(),
            out@ == without_controls(v@.take(i as int)),
        decreases v@.len() - i,
    {
        assert(v@.take(i + 1).drop_last() =~= v@.take(i as int));
        if !text::is_control(v[i]) {
            out.push(v[i]);
        }
        i += 1;
    }
    assert(v@.take(v@.len() as int) =~= v@);
    out
}

/// A container member's name without anything that could lead out of the place
/// it is shown in.
#[must_use]
pub fn sanitize_member_name(raw: &str) -> (r: String)
    ensures
        r@ == spec_sanitize_member_name(raw@),
{
    let slashed = text::replace(raw, "\\", "/");
    let segs = text::split(&slashed, "/");
    let ghost v = chars::texts(segs@);
    let mut kept: Vec<String> = Vec::new();
    assert(chars::texts(kept@) =~= seq![]);
    let mut i: usize = 0;
    while i < segs.len()
        invariant
            i <= segs@.len(),
            v == chars::texts(segs@),
            chars::texts(kept@) == kept_segments(v.take(i as int)),
        decreases segs@.len() - i,
    {
        assert(v.take(i + 1).drop_last() =~= v.take(i as int));
        let seg = &segs[i];
        let heads = text::split(seg, ":");
        proof {
            reveal_strlit(":");
            assert(":"@ =~= seq![':']);
            chars::lemma_split_pieces(seg@, ':');
            assert(chars::texts(heads@)[0] == heads@[0]@);
        }
        let c = strip_controls(&heads[0]);
        if !text::is_empty(&c) && !text::eq(&c, ".") && !text::eq(&c, "..") {
            proof {
                chars::lemma_texts_push(kept@, c);
            }
            kept.push(c);
        }
        i += 1;
    }
    assert(v.take(v.len() as int) =~= v);
    let cleaned = text::join(&kept, "/");
    if text::is_empty(&cleaned) {
        "unnamed".to_owned()
    } else {
        cleaned
    }
}

} // verus!
